//! The armory: detonated and ticking fuses, most urgent first.

use crate::annotation::{location_text, Fuse, Status};
use crate::date::{formatted_ymd, Date};
use crate::order::{is_permutation, key_eq, key_lt, lemma_key_order, stable_order, stably_sorted, SortKey};
use crate::text::{append, decimal, padded_left, padded_right, push_char, push_decimal, push_padded_left, push_padded_right, to_owned};
use crate::path::{lemma_components_key, path_components, path_key, path_key_of, path_lt, same_path};
use vstd::prelude::*;

verus! {

/// The rank of a status in the armory: detonated, ticking, inert.
pub open spec fn status_rank(s: Status) -> nat {
    match s {
        Status::Detonated => 0,
        Status::Ticking => 1,
        Status::Inert => 2,
    }
}

/// `a` is more urgent than `b` seen from `today`: a lower status rank, then
/// fewer days left, then by file (as paths, component by component), then
/// by line.
pub open spec fn more_urgent(a: Fuse, b: Fuse, today: int) -> bool {
    ||| status_rank(a.status) < status_rank(b.status)
    ||| status_rank(a.status) == status_rank(b.status) && a.date@ - today < b.date@ - today
    ||| status_rank(a.status) == status_rank(b.status) && a.date@ == b.date@ && path_lt(a.file@, b.file@)
    ||| status_rank(a.status) == status_rank(b.status) && a.date@ == b.date@ && same_path(a.file@, b.file@) && a.line < b.line
}

/// The detonated and ticking fuses of `fs`, in order.
pub open spec fn urgent(fs: Seq<Fuse>) -> Seq<Fuse>
    decreases fs.len(),
{
    if fs.len() == 0 {
        Seq::empty()
    } else {
        urgent(fs.drop_last()) + if fs.last().status != Status::Inert {
            seq![fs.last()]
        } else {
            Seq::empty()
        }
    }
}

fn key_of(f: &Fuse, today: &Date) -> (k: SortKey)
    ensures
        k.first == status_rank(f.status),
        k.second == f.date@ - today@ - i64::MIN,
        k.text@ == path_key(f.file@),
        k.third == f.line,
        k.fourth == 0,
{
    let days = f.days_from_today(today);
    SortKey {
        first: match f.status {
            Status::Detonated => 0,
            Status::Ticking => 1,
            Status::Inert => 2,
        },
        second: (days as i128 - i64::MIN as i128) as u64,
        text: path_key_of(f.file.as_str()),
        third: f.line as u64,
        fourth: 0,
    }
}

/// The detonated and ticking fuses of `fuses`, most urgent first (by
/// status, then days left, then file, then line), at most `limit` of them.
pub fn select_armory_fuses(fuses: &Vec<Fuse>, today: &Date, limit: usize) -> (r: Vec<Fuse>)
    ensures
        r@.len() == if limit < urgent(fuses@).len() { limit as int } else { urgent(fuses@).len() as int },
        exists|p: Seq<usize>| {
            &&& is_permutation(p, urgent(fuses@).len())
            &&& forall|i: int| 0 <= i < r@.len() ==> #[trigger] r@[i] == urgent(fuses@)[p[i] as int]
            &&& forall|i: int, j: int| 0 <= i < j < p.len() ==> !more_urgent(urgent(fuses@)[p[j] as int], urgent(fuses@)[p[i] as int], today@)
        },
{
    let mut sel: Vec<Fuse> = Vec::new();
    let mut i: usize = 0;
    while i < fuses.len()
        invariant
            i <= fuses.len(),
            sel@ == urgent(fuses@.take(i as int)),
        decreases fuses.len() - i,
    {
        proof {
            assert(fuses@.take(i + 1).drop_last() =~= fuses@.take(i as int));
            assert(fuses@.take(i + 1).last() == fuses@[i as int]);
        }
        if fuses[i].status != Status::Inert {
            sel.push(fuses[i].duplicate());
        } else {
            assert(sel@ + Seq::<Fuse>::empty() =~= sel@);
        }
        i = i + 1;
    }
    assert(fuses@.take(fuses.len() as int) =~= fuses@);
    let ghost u = sel@;
    let mut keys: Vec<SortKey> = Vec::new();
    let mut k: usize = 0;
    while k < sel.len()
        invariant
            k <= sel.len(),
            keys@.len() == k,
            forall|j: int| 0 <= j < k ==> {
                &&& (#[trigger] keys@[j]).first == status_rank(sel@[j].status)
                &&& keys@[j].second == sel@[j].date@ - today@ - i64::MIN
                &&& keys@[j].text@ == path_key(sel@[j].file@)
                &&& keys@[j].third == sel@[j].line
                &&& keys@[j].fourth == 0
            },
        decreases sel.len() - k,
    {
        keys.push(key_of(&sel[k], today));
        k = k + 1;
    }
    let p = stable_order(&keys);
    let n = if limit < p.len() { limit } else { p.len() };
    let mut r: Vec<Fuse> = Vec::new();
    let mut j: usize = 0;
    while j < n
        invariant
            j <= n <= p.len(),
            is_permutation(p@, sel@.len()),
            r@.len() == j,
            forall|a: int| 0 <= a < j ==> #[trigger] r@[a] == sel@[p@[a] as int],
        decreases n - j,
    {
        r.push(sel[p[j]].duplicate());
        j = j + 1;
    }
    proof {
        assert forall|a: int, b: int| 0 <= a < b < p@.len() implies !more_urgent(sel@[p@[b] as int], sel@[p@[a] as int], today@) by {
            let ka = keys@[p@[a] as int];
            let kb = keys@[p@[b] as int];
            lemma_components_key(path_components(sel@[p@[b] as int].file@), path_components(sel@[p@[a] as int].file@));
            assert(!key_lt(kb, ka));
        }
    }
    r
}

/// A fuse as the armory shows it: `TAG[DATE][owner]: message`, the owner
/// only when explicit.
pub open spec fn fuse_text(f: Fuse) -> Seq<char> {
    f.tag@ + seq!['['] + formatted_ymd(f.date@ as i32) + seq![']'] + match f.owner {
        Some(o) => seq!['['] + o@ + seq![']'],
        None => Seq::empty(),
    } + ": "@ + f.message@
}

/// How far a fuse is from its date: `Nd overdue` or `Nd left`.
pub open spec fn delta_text(days: int) -> Seq<char> {
    if days < 0 {
        decimal((-days) as nat) + "d overdue"@
    } else {
        decimal(days as nat) + "d left"@
    }
}

/// The status word of the armory.
pub open spec fn status_word(s: Status) -> Seq<char> {
    match s {
        Status::Detonated => "DETONATED"@,
        Status::Ticking => "TICKING"@,
        Status::Inert => "INERT"@,
    }
}

/// The lines of one entry: `N. STATUS DELTA  file:line`, then the fuse.
pub open spec fn entry_lines(n: nat, f: Fuse, today: int) -> Seq<Seq<char>> {
    seq![
        decimal(n) + ". "@ + padded_right(status_word(f.status), 9) + seq![' '] + padded_left(delta_text(f.date@ - today), 11) + "  "@ + location_text(f.file@, f.line as nat),
        "   "@ + fuse_text(f),
    ]
}

/// The armory's lines for the entries `fs[from..]`, a blank line between
/// entries.
pub open spec fn entries_text(fs: Seq<Fuse>, today: int) -> Seq<Seq<char>>
    decreases fs.len(),
{
    if fs.len() == 0 {
        Seq::empty()
    } else if fs.len() == 1 {
        entry_lines(1, fs[0], today)
    } else {
        entries_text(fs.drop_last(), today) + seq![Seq::<char>::empty()] + entry_lines(fs.len(), fs.last(), today)
    }
}

/// The lines of the armory view: the heading, then `Magazine is quiet.`
/// after a blank line when there is nothing, else each entry.
pub open spec fn armory_text(fs: Seq<Fuse>, today: int, oldest: bool) -> Seq<Seq<char>> {
    seq![if oldest { "Most volatile fuse"@ } else { "Most volatile fuses"@ }] + if fs.len() == 0 {
        seq![Seq::<char>::empty(), "Magazine is quiet."@]
    } else {
        entries_text(fs, today)
    }
}

/// The lines of the armory view of `fs` seen from `today`.
pub fn print_armory_to_writer(fs: &Vec<Fuse>, today: &Date, oldest: bool) -> (r: Vec<String>)
    ensures
        r@.map_values(|s: String| s@) == armory_text(fs@, today@, oldest),
{
    let mut r: Vec<String> = Vec::new();
    r.push(to_owned(if oldest { "Most volatile fuse" } else { "Most volatile fuses" }));
    if fs.len() == 0 {
        r.push(String::new());
        r.push(to_owned("Magazine is quiet."));
        assert(r@.map_values(|s: String| s@) =~= armory_text(fs@, today@, oldest));
        return r;
    }
    let ghost head = r@.map_values(|s: String| s@);
    let mut i: usize = 0;
    while i < fs.len()
        invariant
            i <= fs.len(),
            fs@.len() > 0,
            r@.map_values(|s: String| s@) == head + entries_text(fs@.take(i as int), today@),
        decreases fs.len() - i,
    {
        let f = &fs[i];
        let ghost before = r@.map_values(|s: String| s@);
        if i > 0 {
            r.push(String::new());
        }
        let days = f.days_from_today(today);
        let mut a = String::new();
        push_decimal(&mut a, (i + 1) as u128);
        append(&mut a, ". ");
        let word = match f.status {
            Status::Detonated => "DETONATED",
            Status::Ticking => "TICKING",
            Status::Inert => "INERT",
        };
        push_padded_right(&mut a, word, 9);
        push_char(&mut a, ' ');
        let mut delta = String::new();
        if days < 0 {
            push_decimal(&mut delta, (0i128 - days as i128) as u128);
            append(&mut delta, "d overdue");
        } else {
            push_decimal(&mut delta, days as u128);
            append(&mut delta, "d left");
        }
        push_padded_left(&mut a, delta.as_str(), 11);
        append(&mut a, "  ");
        let loc = f.location();
        append(&mut a, loc.as_str());
        let mut b = to_owned("   ");
        append(&mut b, f.tag.as_str());
        push_char(&mut b, '[');
        let d = f.date_str();
        append(&mut b, d.as_str());
        push_char(&mut b, ']');
        match &f.owner {
            Some(o) => {
                push_char(&mut b, '[');
                append(&mut b, o.as_str());
                push_char(&mut b, ']');
            },
            None => {},
        }
        append(&mut b, ": ");
        append(&mut b, f.message.as_str());
        let ghost av = a@;
        let ghost bv = b@;
        r.push(a);
        r.push(b);
        proof {
            let e = entry_lines((i + 1) as nat, fs@[i as int], today@);
            assert(av == e[0]);
            assert(bv =~= e[1]);
            assert(fs@.take(i + 1).drop_last() =~= fs@.take(i as int));
            assert(fs@.take(i + 1).last() == fs@[i as int]);
            if i == 0 {
                assert(fs@.take(1)[0] == fs@[0]);
                assert(r@.map_values(|s: String| s@) =~= before.push(av).push(bv));
                assert(entries_text(fs@.take(1), today@) =~= e);
            } else {
                assert(r@.map_values(|s: String| s@) =~= before.push(Seq::<char>::empty()).push(av).push(bv));
            }
        }
        i = i + 1;
    }
    assert(fs@.take(fs.len() as int) =~= fs@);
    r
}

} // verus!
