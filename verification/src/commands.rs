//! The decisions of each command: which fuses are kept and in what order,
//! and what exit code a sweep gives.

use crate::annotation::{Fuse, Status};
use crate::cli::{DisarmArgs, ManifestArgs, SortBy};
use crate::config::{glob_match, globset_match, GLOB_CHARS_LIMIT};
use crate::date::{parsed_ymd, Date};
use crate::diff::{entries, is_line_changed, line_changed, FileRanges};
use crate::error::{duration_days, parse_duration_days, Error, Result};
use crate::order::{is_permutation, key_lt, lex_lt, stable_order, SortKey};
use crate::scanner::{arrange, arranged, with_status, ScanResult};
use crate::text::{append, chars_of, lowercased, std_to_lowercase, str_eq, string_of_range, to_owned, views};
use crate::path::{lemma_components_key, path_components, path_key, path_key_of, path_lt, same_path};
use vstd::prelude::*;

verus! {

/// The fuses of `fs` that `keep` holds for, in order.
pub open spec fn selected(fs: Seq<Fuse>, keep: spec_fn(Fuse) -> bool) -> Seq<Fuse>
    decreases fs.len(),
{
    if fs.len() == 0 {
        Seq::empty()
    } else {
        selected(fs.drop_last(), keep) + if keep(fs.last()) {
            seq![fs.last()]
        } else {
            Seq::empty()
        }
    }
}

/// What `selected` keeps: only fuses of `fs` that pass `keep`, and every
/// fuse of `fs` that passes it.
pub proof fn lemma_selected_members(fs: Seq<Fuse>, keep: spec_fn(Fuse) -> bool)
    ensures
        forall|i: int| 0 <= i < selected(fs, keep).len() ==> keep(#[trigger] selected(fs, keep)[i]) && fs.contains(
            selected(fs, keep)[i],
        ),
        forall|k: int| 0 <= k < fs.len() && keep(#[trigger] fs[k]) ==> selected(fs, keep).contains(fs[k]),
    decreases fs.len(),
{
    if fs.len() > 0 {
        let p = fs.drop_last();
        lemma_selected_members(p, keep);
        let sp = selected(p, keep);
        let s = selected(fs, keep);
        assert forall|i: int| 0 <= i < s.len() implies keep(#[trigger] s[i]) && fs.contains(s[i]) by {
            if i < sp.len() {
                assert(s[i] == sp[i]);
                let j = choose|j: int| 0 <= j < p.len() && p[j] == sp[i];
                assert(fs[j] == p[j]);
            } else {
                assert(s[i] == fs.last());
                assert(fs[fs.len() - 1] == fs.last());
            }
        }
        assert forall|k: int| 0 <= k < fs.len() && keep(#[trigger] fs[k]) implies s.contains(fs[k]) by {
            if k < fs.len() - 1 {
                assert(p[k] == fs[k]);
                let j = choose|j: int| 0 <= j < sp.len() && sp[j] == p[k];
                assert(s[j] == sp[j]);
            } else {
                assert(s[s.len() - 1] == fs.last());
            }
        }
    }
}

/// The owner a filter is compared with: the explicit one, else the blamed one.
pub open spec fn shown_owner(f: Fuse) -> Option<Seq<char>> {
    match f.owner {
        Some(o) => Some(o@),
        None => match f.blamed_owner {
            Some(b) => Some(b@),
            None => None,
        },
    }
}

/// `f` belongs to the owner `filter`, compared in lower case.
pub open spec fn owner_is(f: Fuse, filter: Seq<char>) -> bool {
    shown_owner(f) matches Some(o) && lowercased(o) == lowercased(filter)
}

/// Keeps the fuses whose owner (explicit, else blamed) is `filter`,
/// compared in lower case.
pub fn retain_owner(fs: Vec<Fuse>, filter: &str) -> (r: Vec<Fuse>)
    ensures
        r@ == selected(fs@, |f: Fuse| owner_is(f, filter@)),
{
    let lower = std_to_lowercase(filter);
    let mut r: Vec<Fuse> = Vec::new();
    let mut i: usize = 0;
    while i < fs.len()
        invariant
            i <= fs.len(),
            lower@ == lowercased(filter@),
            r@ == selected(fs@.take(i as int), |f: Fuse| owner_is(f, filter@)),
        decreases fs.len() - i,
    {
        proof {
            assert(fs@.take(i + 1).drop_last() =~= fs@.take(i as int));
            assert(fs@.take(i + 1).last() == fs@[i as int]);
        }
        let f = &fs[i];
        let o = match &f.owner {
            Some(o) => Some(o),
            None => match &f.blamed_owner {
                Some(b) => Some(b),
                None => None,
            },
        };
        let keep = match o {
            Some(o) => {
                let lo = std_to_lowercase(o.as_str());
                str_eq(lo.as_str(), lower.as_str())
            },
            None => false,
        };
        if keep {
            r.push(f.duplicate());
        } else {
            assert(r@ + Seq::<Fuse>::empty() =~= r@);
        }
        i = i + 1;
    }
    assert(fs@.take(fs.len() as int) =~= fs@);
    r
}

// ───────────────────────── file filters ─────────────────────────

/// Whether `std::path::Path::ends_with` holds: `child`'s components end
/// `path`'s.
pub uninterp spec fn path_ends_with(path: Seq<char>, child: Seq<char>) -> bool;

/// Calls `std::path::Path::new(path).ends_with(child)`. Claimed: the result
/// is the named suffix test.
#[verifier::external_body]
fn std_path_ends_with(path: &str, child: &str) -> (r: bool)
    ensures
        r == path_ends_with(path@, child@),
{
    std::path::Path::new(path).ends_with(std::path::Path::new(child))
}

/// `f` without a leading `./` or `.\`.
pub open spec fn without_dot_prefix(f: Seq<char>) -> Seq<char> {
    if f.len() >= 2 && f[0] == '.' && (f[1] == '/' || f[1] == '\\') {
        f.skip(2)
    } else {
        f
    }
}

/// `f` holds a glob metacharacter: `*`, `?`, `[` or `{`.
pub open spec fn has_glob_char(f: Seq<char>) -> bool {
    exists|i: int| 0 <= i < f.len() && (f[i] == '*' || f[i] == '?' || f[i] == '[' || f[i] == '{')
}

/// Whether the fuse file `file` matches the filter `filter`: after a
/// leading `./` is dropped, a filter with glob metacharacters that compiles
/// is matched as a glob; any other filter must end the path, component by
/// component.
pub open spec fn file_matches_spec(file: Seq<char>, filter: Seq<char>) -> bool {
    let n = without_dot_prefix(filter);
    if has_glob_char(n) && glob_match(n, file) is Some {
        glob_match(n, file)->0
    } else {
        path_ends_with(file, n)
    }
}

/// Whether the fuse file `file` matches the filter `filter`.
pub fn file_matches(file: &str, filter: &str) -> (r: bool)
    requires
        filter@.len() < GLOB_CHARS_LIMIT,
    ensures
        r == file_matches_spec(file@, filter@),
{
    let v = chars_of(filter);
    let n = if v.len() >= 2 && v[0] == '.' && (v[1] == '/' || v[1] == '\\') {
        let t = string_of_range(&v, 2, v.len());
        assert(t@ =~= filter@.skip(2));
        t
    } else {
        to_owned(filter)
    };
    assert(n@ == without_dot_prefix(filter@));
    let nv = chars_of(n.as_str());
    let mut glob = false;
    let mut i: usize = 0;
    while i < nv.len()
        invariant
            i <= nv.len(),
            nv@ == n@,
            glob == exists|j: int| 0 <= j < i && (nv@[j] == '*' || nv@[j] == '?' || nv@[j] == '[' || nv@[j] == '{'),
        decreases nv.len() - i,
    {
        let c = nv[i];
        if c == '*' || c == '?' || c == '[' || c == '{' {
            glob = true;
        }
        i = i + 1;
    }
    assert(glob == has_glob_char(n@));
    if glob {
        match globset_match(n.as_str(), file) {
            Some(m) => {
                return m;
            },
            None => {},
        }
    }
    std_path_ends_with(file, n.as_str())
}

// ───────────────────────── sweep ─────────────────────────

/// `f` is kept by a sweep's filters: on a changed line when `changed` is
/// given, of the owner `owner` and with the tag `tag` when given, both
/// compared in lower case.
pub open spec fn sweep_keeps(
    f: Fuse,
    changed: Option<Seq<(Seq<char>, Seq<(usize, usize)>)>>,
    owner: Option<Seq<char>>,
    tag: Option<Seq<char>>,
) -> bool {
    &&& (changed matches Some(es) ==> line_changed(es, f.file@, f.line))
    &&& (owner matches Some(o) ==> owner_is(f, o))
    &&& (tag matches Some(t) ==> lowercased(f.tag@) == lowercased(t))
}

/// The owner filter of a sweep looks at the explicit owner of a fuse, and
/// at the owner that blame found when there is none: a fuse is kept exactly
/// when that owner equals the filter ignoring case, and a fuse with neither
/// is dropped. The tag filter compares the tag ignoring case. With no
/// filter every fuse is kept.
pub proof fn law_owner_filter_uses_blame(f: Fuse, o: Seq<char>)
    ensures
        f.owner matches Some(x) ==> (sweep_keeps(f, None, Some(o), None) <==> lowercased(x@) == lowercased(o)),
        f.owner is None ==> (f.blamed_owner matches Some(b) ==> (sweep_keeps(f, None, Some(o), None) <==> lowercased(
            b@,
        ) == lowercased(o))),
        f.owner is None && f.blamed_owner is None ==> !sweep_keeps(f, None, Some(o), None),
        sweep_keeps(f, None, None, None),
        forall|t: Seq<char>| #[trigger] sweep_keeps(f, None, None, Some(t)) <==> lowercased(f.tag@) == lowercased(t),
{
}

/// The entries of optional diff ranges.
pub open spec fn opt_entries(c: Option<&Vec<FileRanges>>) -> Option<Seq<(Seq<char>, Seq<(usize, usize)>)>> {
    match c {
        Some(c) => Some(entries(c@)),
        None => None,
    }
}

/// The text of an optional string slice.
pub open spec fn opt_text_of(o: Option<&str>) -> Option<Seq<char>> {
    match o {
        Some(o) => Some(o@),
        None => None,
    }
}

/// The fuses a sweep reports: those on lines the diff `changed` touched
/// (when given), then those of the owner `owner`, then those with the tag
/// `tag` (when given, compared in lower case). Order is kept.
pub fn sweep_filter(
    fs: Vec<Fuse>,
    changed: Option<&Vec<FileRanges>>,
    owner: Option<&str>,
    tag: Option<&str>,
) -> (r: Vec<Fuse>)
    ensures
        r@ == selected(fs@, |f: Fuse| sweep_keeps(f, opt_entries(changed), opt_text_of(owner), opt_text_of(tag))),
        owner is Some ==> forall|i: int|
            0 <= i < r@.len() ==> ((#[trigger] r@[i]).owner is Some && lowercased(r@[i].owner->0@) == lowercased(
                owner->0@,
            )) || (r@[i].owner is None && r@[i].blamed_owner is Some && lowercased(r@[i].blamed_owner->0@)
                == lowercased(owner->0@)),
        changed is None && tag is None && owner is Some ==> forall|k: int|
            0 <= k < fs@.len() && (#[trigger] fs@[k]).owner is None && fs@[k].blamed_owner is Some && lowercased(
                fs@[k].blamed_owner->0@,
            ) == lowercased(owner->0@) ==> r@.contains(fs@[k]),
{
    proof {
        lemma_selected_members(fs@, |f: Fuse| sweep_keeps(f, opt_entries(changed), opt_text_of(owner), opt_text_of(tag)));
    }
    let lower_owner = match owner {
        Some(o) => Some(std_to_lowercase(o)),
        None => None,
    };
    let lower_tag = match tag {
        Some(t) => Some(std_to_lowercase(t)),
        None => None,
    };
    let mut r: Vec<Fuse> = Vec::new();
    let mut i: usize = 0;
    while i < fs.len()
        invariant
            i <= fs.len(),
            lower_owner matches Some(lo) ==> (owner matches Some(o) && lo@ == lowercased(o@)),
            lower_owner is None ==> owner is None,
            lower_tag matches Some(lt) ==> (tag matches Some(t) && lt@ == lowercased(t@)),
            lower_tag is None ==> tag is None,
            r@ == selected(fs@.take(i as int), |f: Fuse| sweep_keeps(f, opt_entries(changed), opt_text_of(owner), opt_text_of(tag))),
        decreases fs.len() - i,
    {
        proof {
            assert(fs@.take(i + 1).drop_last() =~= fs@.take(i as int));
            assert(fs@.take(i + 1).last() == fs@[i as int]);
        }
        let f = &fs[i];
        let on_changed = match changed {
            Some(c) => is_line_changed(c, f.file.as_str(), f.line),
            None => true,
        };
        let of_owner = match &lower_owner {
            Some(lo) => {
                let o = match &f.owner {
                    Some(o) => Some(o),
                    None => match &f.blamed_owner {
                        Some(b) => Some(b),
                        None => None,
                    },
                };
                match o {
                    Some(o) => {
                        let l = std_to_lowercase(o.as_str());
                        str_eq(l.as_str(), lo.as_str())
                    },
                    None => false,
                }
            },
            None => true,
        };
        let of_tag = match &lower_tag {
            Some(lt) => {
                let l = std_to_lowercase(f.tag.as_str());
                str_eq(l.as_str(), lt.as_str())
            },
            None => true,
        };
        if on_changed && of_owner && of_tag {
            r.push(f.duplicate());
        } else {
            assert(r@ + Seq::<Fuse>::empty() =~= r@);
        }
        i = i + 1;
    }
    assert(fs@.take(fs.len() as int) =~= fs@);
    r
}

/// The exit code of a sweep: 1 when the ratchet was violated, when a fuse
/// detonated, or when a fuse ticks and ticking fails the sweep; else 0.
pub fn sweep_exit_code(violations: &Vec<String>, result: &ScanResult, fail_on_ticking: bool) -> (r: i32)
    ensures
        r == if violations@.len() > 0 || with_status(result.fuses@, Status::Detonated).len() > 0 || (
        fail_on_ticking && with_status(result.fuses@, Status::Ticking).len() > 0) {
            1i32
        } else {
            0i32
        },
{
    if violations.len() > 0 {
        return 1;
    }
    if result.has_expired() {
        return 1;
    }
    if fail_on_ticking && result.has_expiring_soon() {
        return 1;
    }
    0
}

// ───────────────────────── manifest ─────────────────────────

/// `a` sorts strictly before `b` under `by`.
pub open spec fn sorts_before(a: Fuse, b: Fuse, by: SortBy) -> bool {
    match by {
        SortBy::Date => false,
        SortBy::File => path_lt(a.file@, b.file@) || (same_path(a.file@, b.file@) && a.line < b.line),
        SortBy::Owner => {
            let oa = match a.owner {
                Some(o) => o@,
                None => Seq::empty(),
            };
            let ob = match b.owner {
                Some(o) => o@,
                None => Seq::empty(),
            };
            lex_lt(oa, ob) || (oa == ob && a.date@ < b.date@)
        },
        SortBy::Status => crate::armory::status_rank(a.status) < crate::armory::status_rank(b.status) || (
        a.status == b.status && a.date@ < b.date@),
    }
}

/// `a` and `b` sort alike under `by`.
pub open spec fn sorts_alike(a: Fuse, b: Fuse, by: SortBy) -> bool {
    !sorts_before(a, b, by) && !sorts_before(b, a, by)
}

fn sort_key(f: &Fuse, by: SortBy) -> (k: SortKey)
    ensures
        k.fourth == match by {
            SortBy::Date => 0,
            SortBy::File => 0,
            SortBy::Owner => f.date@,
            SortBy::Status => f.date@,
        },
        k.first == match by {
            SortBy::Status => crate::armory::status_rank(f.status),
            _ => 0,
        },
        k.second == 0,
        k.text@ == match by {
            SortBy::File => path_key(f.file@),
            SortBy::Owner => match f.owner {
                Some(o) => o@,
                None => Seq::empty(),
            },
            _ => Seq::empty(),
        },
        k.third == match by {
            SortBy::File => f.line as int,
            _ => 0,
        },
{
    let text = match by {
        SortBy::File => path_key_of(f.file.as_str()),
        SortBy::Owner => match &f.owner {
            Some(o) => o.clone(),
            None => String::new(),
        },
        _ => String::new(),
    };
    let first: u64 = match by {
        SortBy::Status => match f.status {
            Status::Detonated => 0,
            Status::Ticking => 1,
            Status::Inert => 2,
        },
        _ => 0,
    };
    let third: u64 = match by {
        SortBy::File => f.line as u64,
        _ => 0,
    };
    let fourth: i64 = match by {
        SortBy::Owner => f.date.epoch_days() as i64,
        SortBy::Status => f.date.epoch_days() as i64,
        _ => 0,
    };
    SortKey { first, second: 0, text, third, fourth }
}

/// The fuses reordered by `by`, stably: fuses that sort alike keep their
/// order (`Date` keeps the order given).
pub fn sort_fuses(fs: &Vec<Fuse>, by: SortBy) -> (r: Vec<Fuse>)
    ensures
        exists|p: Seq<usize>| {
            &&& is_permutation(p, fs@.len())
            &&& arranged(r@, fs@, p)
            &&& forall|i: int, j: int| 0 <= i < j < p.len() ==> !sorts_before(fs@[p[j] as int], fs@[p[i] as int], by)
            &&& forall|i: int, j: int| 0 <= i < j < p.len() && sorts_alike(fs@[p[i] as int], fs@[p[j] as int], by) ==> p[i] < p[j]
        },
{
    let mut keys: Vec<SortKey> = Vec::new();
    let mut i: usize = 0;
    while i < fs.len()
        invariant
            i <= fs.len(),
            keys@.len() == i,
            forall|j: int| 0 <= j < i ==> {
                &&& (#[trigger] keys@[j]).fourth == match by {
                    SortBy::Date => 0,
                    SortBy::File => 0,
                    SortBy::Owner => fs@[j].date@,
                    SortBy::Status => fs@[j].date@,
                }
                &&& keys@[j].first == match by {
                    SortBy::Status => crate::armory::status_rank(fs@[j].status),
                    _ => 0,
                }
                &&& keys@[j].second == 0
                &&& keys@[j].text@ == match by {
                    SortBy::File => path_key(fs@[j].file@),
                    SortBy::Owner => match fs@[j].owner {
                        Some(o) => o@,
                        None => Seq::empty(),
                    },
                    _ => Seq::empty(),
                }
                &&& keys@[j].third == match by {
                    SortBy::File => fs@[j].line as int,
                    _ => 0,
                }
            },
        decreases fs.len() - i,
    {
        keys.push(sort_key(&fs[i], by));
        i = i + 1;
    }
    let p = stable_order(&keys);
    let r = arrange(fs, &p);
    proof {
        assert forall|a: int, b: int| 0 <= a < b < p@.len() implies !sorts_before(fs@[p@[b] as int], fs@[p@[a] as int], by) by {
            let ka = keys@[p@[a] as int];
            let kb = keys@[p@[b] as int];
            lemma_components_key(path_components(fs@[p@[b] as int].file@), path_components(fs@[p@[a] as int].file@));
            assert(!key_lt(kb, ka));
            if by == SortBy::Status {
                let fa = fs@[p@[a] as int];
                let fb = fs@[p@[b] as int];
                if fa.status == fb.status {
                } else {
                }
            }
        }
        assert forall|a: int, b: int| 0 <= a < b < p@.len() && sorts_alike(fs@[p@[a] as int], fs@[p@[b] as int], by) implies p@[a] < p@[b] by {
            let ka = keys@[p@[a] as int];
            let kb = keys@[p@[b] as int];
            crate::order::lemma_key_order(ka, kb, ka);
            crate::order::lemma_lex_total(ka.text@, kb.text@);
            let fa = fs@[p@[a] as int];
            let fb = fs@[p@[b] as int];
            lemma_components_key(path_components(fa.file@), path_components(fb.file@));
            lemma_components_key(path_components(fb.file@), path_components(fa.file@));
            if by == SortBy::Status {
                if fa.status != fb.status {
                    assert(crate::armory::status_rank(fa.status) != crate::armory::status_rank(fb.status));
                }
            }
            assert(crate::order::key_eq(ka, kb));
        }
    }
    r
}

/// `f` passes the manifest's filters: detonated when `detonated`, else due
/// within `window` days from `today` when a window is given; in a file
/// matching one of `files` when there are any; dated within `between`
/// when given; not inert when `no_inert`; without any owner when
/// `owner_missing`.
pub open spec fn manifest_keeps(
    f: Fuse,
    detonated: bool,
    window: Option<u32>,
    files: Seq<Seq<char>>,
    between: Option<(int, int)>,
    no_inert: bool,
    owner_missing: bool,
    today: int,
) -> bool {
    &&& if detonated {
        f.status == Status::Detonated
    } else {
        window matches Some(w) ==> 0 <= f.date@ - today <= w
    }
    &&& (files.len() > 0 ==> exists|k: int| 0 <= k < files.len() && file_matches_spec(f.file@, #[trigger] files[k]))
    &&& (between matches Some((a, b)) ==> a <= f.date@ <= b)
    &&& (no_inert ==> f.status != Status::Inert)
    &&& (owner_missing ==> f.owner is None && f.blamed_owner is None)
}

pub open spec fn between_start_message(t: Seq<char>) -> Seq<char> {
    "--between: invalid start date '"@ + t + "', expected YYYY-MM-DD"@
}

pub open spec fn between_end_message(t: Seq<char>) -> Seq<char> {
    "--between: invalid end date '"@ + t + "', expected YYYY-MM-DD"@
}

fn matches_any(file: &str, filters: &Vec<String>) -> (r: bool)
    requires
        forall|k: int| 0 <= k < filters@.len() ==> (#[trigger] filters@[k])@.len() < GLOB_CHARS_LIMIT,
    ensures
        r == exists|k: int| 0 <= k < filters@.len() && file_matches_spec(file@, #[trigger] views(filters@)[k]),
{
    let mut k: usize = 0;
    while k < filters.len()
        invariant
            k <= filters.len(),
            forall|j: int| 0 <= j < k ==> !file_matches_spec(file@, #[trigger] views(filters@)[j]),
            forall|j: int| 0 <= j < filters@.len() ==> (#[trigger] filters@[j])@.len() < GLOB_CHARS_LIMIT,
        decreases filters.len() - k,
    {
        assert(views(filters@)[k as int] == filters@[k as int]@);
        if file_matches(file, filters[k].as_str()) {
            return true;
        }
        k = k + 1;
    }
    false
}

fn keep_matching(
    fs: Vec<Fuse>,
    detonated: bool,
    window: Option<u32>,
    files: &Vec<String>,
    between: Option<(Date, Date)>,
    no_inert: bool,
    owner_missing: bool,
    today: &Date,
) -> (r: Vec<Fuse>)
    requires
        forall|k: int| 0 <= k < files@.len() ==> (#[trigger] files@[k])@.len() < GLOB_CHARS_LIMIT,
    ensures
        r@ == selected(fs@, |f: Fuse| manifest_keeps(f, detonated, window, views(files@), bounds_of(between), no_inert, owner_missing, today@)),
{
    let mut r: Vec<Fuse> = Vec::new();
    let mut i: usize = 0;
    while i < fs.len()
        invariant
            i <= fs.len(),
            r@ == selected(fs@.take(i as int), |f: Fuse| manifest_keeps(f, detonated, window, views(files@), bounds_of(between), no_inert, owner_missing, today@)),
            forall|j: int| 0 <= j < files@.len() ==> (#[trigger] files@[j])@.len() < GLOB_CHARS_LIMIT,
        decreases fs.len() - i,
    {
        proof {
            assert(fs@.take(i + 1).drop_last() =~= fs@.take(i as int));
            assert(fs@.take(i + 1).last() == fs@[i as int]);
        }
        let f = &fs[i];
        let by_status = if detonated {
            f.status == Status::Detonated
        } else {
            match window {
                Some(w) => {
                    let d = f.days_from_today(today);
                    d >= 0 && d <= w as i64
                },
                None => true,
            }
        };
        let by_file = files.len() == 0 || matches_any(f.file.as_str(), files);
        let by_date = match &between {
            Some((a, b)) => !f.date.before(a) && !b.before(&f.date),
            None => true,
        };
        let by_inert = !no_inert || f.status != Status::Inert;
        let by_owner = !owner_missing || (f.owner.is_none() && f.blamed_owner.is_none());
        if by_status && by_file && by_date && by_inert && by_owner {
            r.push(f.duplicate());
        } else {
            assert(r@ + Seq::<Fuse>::empty() =~= r@);
        }
        i = i + 1;
    }
    assert(fs@.take(fs.len() as int) =~= fs@);
    r
}

/// The day numbers of optional `--between` bounds.
pub open spec fn bounds_of(b: Option<(Date, Date)>) -> Option<(int, int)> {
    match b {
        Some((a, c)) => Some((a@, c@)),
        None => None,
    }
}

/// The bounds of `--between`, read from its two texts.
pub fn read_between(dates: &Vec<String>) -> (r: Result<(Date, Date)>)
    requires
        dates@.len() == 2,
    ensures
        match parsed_ymd(dates@[0]@) {
            None => r matches Err(e) && e.detail() == between_start_message(dates@[0]@),
            Some(a) => match parsed_ymd(dates@[1]@) {
                None => r matches Err(e) && e.detail() == between_end_message(dates@[1]@),
                Some(b) => r matches Ok((x, y)) && x@ == a && y@ == b,
            },
        },
{
    let start = match Date::parse(dates[0].as_str()) {
        Some(d) => d,
        None => {
            let mut m = to_owned("--between: invalid start date '");
            append(&mut m, dates[0].as_str());
            append(&mut m, "', expected YYYY-MM-DD");
            return Err(Error::InvalidArgument(m));
        },
    };
    let end = match Date::parse(dates[1].as_str()) {
        Some(d) => d,
        None => {
            let mut m = to_owned("--between: invalid end date '");
            append(&mut m, dates[1].as_str());
            append(&mut m, "', expected YYYY-MM-DD");
            return Err(Error::InvalidArgument(m));
        },
    };
    Ok((start, end))
}

/// `v` is `base` sorted stably by `by` and cut to the first `next`.
pub open spec fn listed(v: Seq<Fuse>, base: Seq<Fuse>, next: Option<usize>, by: SortBy) -> bool {
    exists|p: Seq<usize>| {
        &&& is_permutation(p, base.len())
        &&& v.len() == match next {
            Some(n) => if n < base.len() { n as int } else { base.len() as int },
            None => base.len() as int,
        }
        &&& forall|i: int| 0 <= i < v.len() ==> #[trigger] v[i] == base[p[i] as int]
        &&& forall|i: int, j: int| 0 <= i < j < p.len() ==> !sorts_before(base[p[j] as int], base[p[i] as int], by)
        &&& forall|i: int, j: int| 0 <= i < j < p.len() && sorts_alike(base[p[i] as int], base[p[j] as int], by) ==> p[i] < p[j]
    }
}

/// The fuses that `manifest` lists, from the swept fuses `fs` (in date
/// order): filtered as `manifest_keeps` says, sorted stably by `--sort`,
/// and cut to the first `--next`. A bad `--ticking` window or `--between`
/// date is refused, the window first.
pub fn select_manifest(fs: Vec<Fuse>, args: &ManifestArgs, today: &Date) -> (r: Result<Vec<Fuse>>)
    requires
        args.between matches Some(v) ==> v@.len() == 2,
        forall|k: int| 0 <= k < args.file@.len() ==> (#[trigger] args.file@[k])@.len() < GLOB_CHARS_LIMIT,
    ensures
        ({
            let window_err = !args.detonated && (args.ticking matches Some(t) && duration_days(t@) is Err);
            if window_err {
                r matches Err(e) && (args.ticking matches Some(t) && duration_days(t@) matches Err(m) && e.detail() == m)
            } else {
                let window = if args.detonated {
                    None
                } else {
                    match args.ticking {
                        Some(t) => Some(duration_days(t@)->Ok_0),
                        None => None,
                    }
                };
                match args.between {
                    Some(v) if parsed_ymd(v@[0]@) is None => r matches Err(e) && e.detail() == between_start_message(v@[0]@),
                    Some(v) if parsed_ymd(v@[1]@) is None => r matches Err(e) && e.detail() == between_end_message(v@[1]@),
                    _ => {
                        let bounds = match args.between {
                            Some(v) => Some((parsed_ymd(v@[0]@)->0 as int, parsed_ymd(v@[1]@)->0 as int)),
                            None => None,
                        };
                        let base = selected(fs@, |f: Fuse| manifest_keeps(f, args.detonated, window, views(args.file@), bounds, args.no_inert, args.owner_missing, today@));
                        let by = match args.sort {
                            Some(b) => b,
                            None => SortBy::Date,
                        };
                        r matches Ok(v) && listed(v@, base, args.next, by)
                    },
                }
            }
        }),
{
    let window: Option<u32> = if args.detonated {
        None
    } else {
        match &args.ticking {
            Some(t) => match parse_duration_days(t.as_str()) {
                Ok(w) => Some(w),
                Err(e) => {
                    return Err(e);
                },
            },
            None => None,
        }
    };
    let between = match &args.between {
        Some(v) => match read_between(v) {
            Ok(b) => Some(b),
            Err(e) => {
                return Err(e);
            },
        },
        None => None,
    };
    let ghost spec_window = if args.detonated {
        None
    } else {
        match &args.ticking {
            Some(t) => Some(duration_days(t@)->Ok_0),
            None => None,
        }
    };
    let ghost spec_bounds = match &args.between {
        Some(v) => Some((parsed_ymd(v@[0]@)->0 as int, parsed_ymd(v@[1]@)->0 as int)),
        None => None,
    };
    assert(window == spec_window);
    assert(bounds_of(between) == spec_bounds);
    let ghost fs_view = fs@;
    let base = keep_matching(fs, args.detonated, window, &args.file, between, args.no_inert, args.owner_missing, today);
    assert((|f: Fuse| manifest_keeps(f, args.detonated, window, views(args.file@), bounds_of(between), args.no_inert, args.owner_missing, today@)) =~= (|f: Fuse| manifest_keeps(f, args.detonated, spec_window, views(args.file@), spec_bounds, args.no_inert, args.owner_missing, today@)));
    let by = match args.sort {
        Some(b) => b,
        None => SortBy::Date,
    };
    let mut sorted = sort_fuses(&base, by);
    let n = match args.next {
        Some(n) => if n < sorted.len() { n } else { sorted.len() },
        None => sorted.len(),
    };
    let ghost full = sorted@;
    sorted.truncate(n);
    proof {
        let p = choose|p: Seq<usize>| {
            &&& is_permutation(p, base@.len())
            &&& arranged(full, base@, p)
            &&& forall|i: int, j: int| 0 <= i < j < p.len() ==> !sorts_before(base@[p[j] as int], base@[p[i] as int], by)
            &&& forall|i: int, j: int| 0 <= i < j < p.len() && sorts_alike(base@[p[i] as int], base@[p[j] as int], by) ==> p[i] < p[j]
        };
        assert forall|i: int| 0 <= i < sorted@.len() implies #[trigger] sorted@[i] == base@[p[i] as int] by {
            assert(sorted@[i] == full[i]);
        }
        assert(listed(sorted@, base@, args.next, by));
    }
    Ok(sorted)
}

// ───────────────────────── disarm ─────────────────────────

/// What `disarm` is asked to do.
#[derive(Debug)]
pub enum DisarmPlan {
    /// Remove every detonated fuse under the swept path.
    AllDetonated,
    /// Remove the fuse named by this target: `FILE:LINE`, or `FILE` with a
    /// search pattern.
    Target(String),
}

pub open spec fn missing_target_message() -> Seq<char> {
    "either a target FILE[:LINE] or --all-detonated is required"@
}

/// Which disarm is asked for: `--all-detonated` when given, else the
/// target, which is then required.
pub fn disarm_plan(args: &DisarmArgs) -> (r: Result<DisarmPlan>)
    ensures
        args.all_detonated ==> r matches Ok(DisarmPlan::AllDetonated),
        !args.all_detonated ==> match args.target {
            Some(t) => r matches Ok(DisarmPlan::Target(x)) && x@ == t@,
            None => r matches Err(e) && e.detail() == missing_target_message(),
        },
{
    if args.all_detonated {
        return Ok(DisarmPlan::AllDetonated);
    }
    match &args.target {
        Some(t) => Ok(DisarmPlan::Target(t.clone())),
        None => Err(Error::InvalidArgument(to_owned("either a target FILE[:LINE] or --all-detonated is required"))),
    }
}

} // verus!
