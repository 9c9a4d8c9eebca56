//! Character-level text handling shared by every module: the specifications
//! of line splitting, trimming, substring search, decimal numbers and ASCII
//! case, with their executable counterparts.

use vstd::prelude::*;
use vstd::string::StringExecFns;

verus! {

// ───────────────────────── building strings ─────────────────────────

/// Appends one character to a string (`String::push`).
#[verifier::external_body]
pub(crate) fn push_char(s: &mut String, c: char)
    ensures
        final(s)@ == old(s)@.push(c),
{
    s.push(c);
}

/// The characters of a string slice, in order.
pub fn chars_of(s: &str) -> (r: Vec<char>)
    ensures
        r@ == s@,
{
    let mut r: Vec<char> = Vec::new();
    for c in it: s.chars()
        invariant
            r@ == it.seq().take(it.index() as int),
            it.seq() == s@,
    {
        r.push(c);
    }
    r
}

/// A string holding the characters `v[from..to]`.
pub fn string_of_range(v: &Vec<char>, from: usize, to: usize) -> (r: String)
    requires
        from <= to <= v.len(),
    ensures
        r@ == v@.subrange(from as int, to as int),
{
    let mut r = String::new();
    let mut i = from;
    while i < to
        invariant
            from <= i <= to <= v.len(),
            r@ == v@.subrange(from as int, i as int),
        decreases to - i,
    {
        push_char(&mut r, v[i]);
        i = i + 1;
    }
    r
}

/// A string holding all characters of `v`.
pub fn string_of(v: &Vec<char>) -> (r: String)
    ensures
        r@ == v@,
{
    let r = string_of_range(v, 0, v.len());
    assert(v@.subrange(0, v@.len() as int) =~= v@);
    r
}

/// Appends a string slice to a string.
pub fn append(s: &mut String, t: &str)
    ensures
        final(s)@ == old(s)@ + t@,
{
    s.append(t);
}

/// A fresh copy of a string slice.
pub fn to_owned(t: &str) -> (r: String)
    ensures
        r@ == t@,
{
    let mut r = String::new();
    r.append(t);
    assert(r@ =~= t@);
    r
}

// ───────────────────────── whitespace and trimming ─────────────────────────

/// The Unicode `White_Space` property, which `char::is_whitespace` tests.
pub open spec fn is_ws(c: char) -> bool {
    let u = c as u32;
    ||| 0x9 <= u <= 0xd
    ||| u == 0x20
    ||| u == 0x85
    ||| u == 0xa0
    ||| u == 0x1680
    ||| 0x2000 <= u <= 0x200a
    ||| u == 0x2028
    ||| u == 0x2029
    ||| u == 0x202f
    ||| u == 0x205f
    ||| u == 0x3000
}

pub fn is_ws_char(c: char) -> (r: bool)
    ensures
        r == is_ws(c),
{
    let u = c as u32;
    (0x9 <= u && u <= 0xd) || u == 0x20 || u == 0x85 || u == 0xa0 || u == 0x1680 || (0x2000 <= u
        && u <= 0x200a) || u == 0x2028 || u == 0x2029 || u == 0x202f || u == 0x205f || u == 0x3000
}

/// `s` without its trailing whitespace (`str::trim_end`).
pub open spec fn trim_end(s: Seq<char>) -> Seq<char>
    decreases s.len(),
{
    if s.len() > 0 && is_ws(s.last()) {
        trim_end(s.drop_last())
    } else {
        s
    }
}

/// `s` without its leading whitespace (`str::trim_start`).
pub open spec fn trim_start(s: Seq<char>) -> Seq<char>
    decreases s.len(),
{
    if s.len() > 0 && is_ws(s[0]) {
        trim_start(s.drop_first())
    } else {
        s
    }
}

/// `s` without leading and trailing whitespace (`str::trim`).
pub open spec fn trim(s: Seq<char>) -> Seq<char> {
    trim_start(trim_end(s))
}

pub proof fn lemma_trim_end_at(s: Seq<char>, k: int)
    requires
        0 <= k <= s.len(),
        forall|i: int| k <= i < s.len() ==> is_ws(#[trigger] s[i]),
        k == 0 || !is_ws(s[k - 1]),
    ensures
        trim_end(s) == s.take(k),
    decreases s.len(),
{
    if s.len() > 0 && is_ws(s.last()) {
        assert(k < s.len());
        lemma_trim_end_at(s.drop_last(), k);
        assert(s.drop_last().take(k) =~= s.take(k));
    } else {
        assert(k == s.len());
        assert(s.take(k) =~= s);
    }
}

pub proof fn lemma_trim_start_at(s: Seq<char>, k: int)
    requires
        0 <= k <= s.len(),
        forall|i: int| 0 <= i < k ==> is_ws(#[trigger] s[i]),
        k == s.len() || !is_ws(s[k]),
    ensures
        trim_start(s) == s.skip(k),
    decreases s.len(),
{
    if s.len() > 0 && is_ws(s[0]) {
        assert(k > 0);
        let t = s.drop_first();
        assert forall|i: int| 0 <= i < k - 1 implies is_ws(#[trigger] t[i]) by {
            assert(t[i] == s[i + 1]);
        }
        lemma_trim_start_at(t, k - 1);
        assert(t.skip(k - 1) =~= s.skip(k));
    } else {
        assert(k == 0);
        assert(s.skip(0) =~= s);
    }
}

proof fn lemma_trim_end_leading_space(m: Seq<char>)
    ensures
        trim_end(seq![' '] + m) == if trim_end(m).len() == 0 {
            Seq::<char>::empty()
        } else {
            seq![' '] + trim_end(m)
        },
    decreases m.len(),
{
    let s = seq![' '] + m;
    assert(is_ws(' '));
    if m.len() == 0 {
        assert(s.drop_last() =~= Seq::<char>::empty());
        assert(trim_end(s) == trim_end(s.drop_last()));
        assert(trim_end(Seq::<char>::empty()) == Seq::<char>::empty());
        assert(trim_end(m).len() == 0);
    } else if is_ws(m.last()) {
        assert(s.last() == m.last());
        assert(s.drop_last() =~= seq![' '] + m.drop_last());
        lemma_trim_end_leading_space(m.drop_last());
        assert(trim_end(m) == trim_end(m.drop_last()));
        assert(trim_end(s) == trim_end(s.drop_last()));
    } else {
        assert(s.last() == m.last());
        assert(trim_end(m) == m);
        assert(trim_end(s) == s);
    }
}

/// Trailing whitespace of `a + b` lies in `b` when `a` ends with a
/// non-whitespace character.
pub proof fn lemma_trim_end_after(a: Seq<char>, b: Seq<char>)
    requires
        a.len() > 0,
        !is_ws(a.last()),
    ensures
        trim_end(a + b) == a + trim_end(b),
    decreases b.len(),
{
    let s = a + b;
    if b.len() == 0 {
        assert(s =~= a);
        assert(trim_end(a) == a);
        assert(a + Seq::<char>::empty() =~= a);
    } else if is_ws(b.last()) {
        assert(s.last() == b.last());
        assert(s.drop_last() =~= a + b.drop_last());
        lemma_trim_end_after(a, b.drop_last());
        assert(trim_end(s) == trim_end(s.drop_last()));
        assert(trim_end(b) == trim_end(b.drop_last()));
    } else {
        assert(s.last() == b.last());
        assert(trim_end(s) == s);
        assert(trim_end(b) == b);
    }
}

/// A leading space does not change what `trim` gives.
pub proof fn lemma_trim_leading_space(m: Seq<char>)
    ensures
        trim(seq![' '] + m) == trim(m),
{
    lemma_trim_end_leading_space(m);
    assert(is_ws(' '));
    let t = trim_end(m);
    if t.len() > 0 {
        assert((seq![' '] + t).drop_first() =~= t);
    }
}

/// Index one past the last non-whitespace character of `v[from..to]`
/// (or `from` when all of it is whitespace).
pub fn trim_end_index(v: &Vec<char>, from: usize, to: usize) -> (k: usize)
    requires
        from <= to <= v.len(),
    ensures
        from <= k <= to,
        trim_end(v@.subrange(from as int, to as int)) == v@.subrange(from as int, k as int),
{
    let mut k = to;
    while k > from && is_ws_char(v[k - 1])
        invariant
            from <= k <= to <= v.len(),
            forall|i: int| k <= i < to ==> is_ws(#[trigger] v@[i]),
        decreases k,
    {
        k = k - 1;
    }
    proof {
        let s = v@.subrange(from as int, to as int);
        assert forall|i: int| k - from <= i < s.len() implies is_ws(#[trigger] s[i]) by {
            assert(s[i] == v@[from + i]);
        }
        lemma_trim_end_at(s, k - from);
        assert(s.take(k - from) =~= v@.subrange(from as int, k as int));
    }
    k
}

/// Index of the first non-whitespace character of `v[from..to]` (or `to`).
pub fn trim_start_index(v: &Vec<char>, from: usize, to: usize) -> (k: usize)
    requires
        from <= to <= v.len(),
    ensures
        from <= k <= to,
        trim_start(v@.subrange(from as int, to as int)) == v@.subrange(k as int, to as int),
{
    let mut k = from;
    while k < to && is_ws_char(v[k])
        invariant
            from <= k <= to <= v.len(),
            forall|i: int| from <= i < k ==> is_ws(#[trigger] v@[i]),
        decreases to - k,
    {
        k = k + 1;
    }
    proof {
        let s = v@.subrange(from as int, to as int);
        assert forall|i: int| 0 <= i < k - from implies is_ws(#[trigger] s[i]) by {
            assert(s[i] == v@[from + i]);
        }
        lemma_trim_start_at(s, k - from);
        assert(s.skip(k - from) =~= v@.subrange(k as int, to as int));
    }
    k
}

/// Bounds of `trim(v[from..to])` inside `v`.
pub fn trim_bounds(v: &Vec<char>, from: usize, to: usize) -> (r: (usize, usize))
    requires
        from <= to <= v.len(),
    ensures
        from <= r.0 <= r.1 <= to,
        trim(v@.subrange(from as int, to as int)) == v@.subrange(r.0 as int, r.1 as int),
{
    let e = trim_end_index(v, from, to);
    let b = trim_start_index(v, from, e);
    (b, e)
}

/// `str::trim` on a string slice.
pub fn trim_str(s: &str) -> (r: String)
    ensures
        r@ == trim(s@),
{
    let v = chars_of(s);
    let (b, e) = trim_bounds(&v, 0, v.len());
    assert(v@.subrange(0, v@.len() as int) =~= s@);
    string_of_range(&v, b, e)
}

/// `str::trim_end` on a string slice.
pub fn trim_end_str(s: &str) -> (r: String)
    ensures
        r@ == trim_end(s@),
{
    let v = chars_of(s);
    let e = trim_end_index(&v, 0, v.len());
    assert(v@.subrange(0, v@.len() as int) =~= s@);
    string_of_range(&v, 0, e)
}

// ───────────────────────── lines ─────────────────────────

/// Number of characters before the first `'\n'` of `s` (or `s.len()`).
pub open spec fn line_end(s: Seq<char>) -> nat
    decreases s.len(),
{
    if s.len() == 0 {
        0
    } else if s[0] == '\n' {
        0
    } else {
        1 + line_end(s.drop_first())
    }
}

/// The first line of `s`, without its terminator: `"\n"` or `"\r\n"`.
pub open spec fn first_line(s: Seq<char>) -> Seq<char> {
    let k = line_end(s) as int;
    if k < s.len() && k > 0 && s[k - 1] == '\r' {
        s.take(k - 1)
    } else {
        s.take(k)
    }
}

/// What follows the first line terminator of `s` (empty if there is none).
pub open spec fn after_first_line(s: Seq<char>) -> Seq<char> {
    let k = line_end(s) as int;
    if k < s.len() {
        s.skip(k + 1)
    } else {
        Seq::empty()
    }
}

/// The lines of `s` as `str::lines` yields them: split at `"\n"` or
/// `"\r\n"`, terminators dropped, no empty line after a final terminator.
pub open spec fn lines(s: Seq<char>) -> Seq<Seq<char>>
    decreases s.len(),
{
    if s.len() == 0 {
        Seq::empty()
    } else {
        proof {
            lemma_line_end_bound(s);
        }
        seq![first_line(s)] + lines(after_first_line(s))
    }
}

pub proof fn lemma_line_end_bound(s: Seq<char>)
    ensures
        line_end(s) <= s.len(),
        line_end(s) < s.len() ==> s[line_end(s) as int] == '\n',
        forall|i: int| 0 <= i < line_end(s) ==> s[i] != '\n',
    decreases s.len(),
{
    if s.len() > 0 && s[0] != '\n' {
        lemma_line_end_bound(s.drop_first());
        assert forall|i: int| 0 <= i < line_end(s) implies s[i] != '\n' by {
            if i > 0 {
                assert(s[i] == s.drop_first()[i - 1]);
            }
        }
    }
}

pub proof fn lemma_line_end_at(s: Seq<char>, k: int)
    requires
        0 <= k <= s.len(),
        forall|i: int| 0 <= i < k ==> s[i] != '\n',
        k == s.len() || s[k] == '\n',
    ensures
        line_end(s) == k,
    decreases s.len(),
{
    if s.len() > 0 && s[0] != '\n' {
        let t = s.drop_first();
        assert forall|i: int| 0 <= i < k - 1 implies t[i] != '\n' by {
            assert(t[i] == s[i + 1]);
        }
        lemma_line_end_at(t, k - 1);
    }
}

/// Bounds `(start, end)` of each line of `v[from..]` as `str::lines` yields
/// them.
pub fn line_bounds(v: &Vec<char>) -> (r: Vec<(usize, usize)>)
    ensures
        r@.len() == lines(v@).len(),
        forall|i: int|
            0 <= i < r@.len() ==> {
                &&& (#[trigger] r@[i]).0 <= r@[i].1 <= v@.len()
                &&& v@.subrange(r@[i].0 as int, r@[i].1 as int) == lines(v@)[i]
            },
{
    let mut r: Vec<(usize, usize)> = Vec::new();
    let mut pos: usize = 0;
    let n = v.len();
    assert(v@.skip(0) =~= v@);
    while pos < n
        invariant
            n == v@.len(),
            pos <= n,
            lines(v@) =~= r@.map_values(
                |b: (usize, usize)| v@.subrange(b.0 as int, b.1 as int),
            ) + lines(v@.skip(pos as int)),
            forall|i: int|
                0 <= i < r@.len() ==> (#[trigger] r@[i]).0 <= r@[i].1 <= v@.len(),
        decreases n - pos,
    {
        let ghost rest = v@.skip(pos as int);
        let mut k = pos;
        while k < n && v[k] != '\n'
            invariant
                pos <= k <= n,
                n == v@.len(),
                forall|i: int| pos <= i < k ==> v@[i] != '\n',
            decreases n - k,
        {
            k = k + 1;
        }
        proof {
            assert forall|i: int| 0 <= i < k - pos implies rest[i] != '\n' by {
                assert(rest[i] == v@[pos + i]);
            }
            if k < n {
                assert(rest[k - pos] == v@[k as int]);
            }
            lemma_line_end_at(rest, k - pos);
        }
        let end = if k < n && k > pos && v[k - 1] == '\r' {
            k - 1
        } else {
            k
        };
        proof {
            assert(rest.len() > 0);
            if k < n && k > pos {
                assert(rest[k - pos - 1] == v@[k - 1]);
            }
            assert(first_line(rest) =~= v@.subrange(pos as int, end as int));
            if k < n {
                assert(after_first_line(rest) =~= v@.skip(k + 1));
            } else {
                assert(after_first_line(rest) =~= v@.skip(n as int));
            }
            assert(lines(rest) == seq![first_line(rest)] + lines(after_first_line(rest)));
        }
        let ghost old_r = r@;
        r.push((pos, end));
        proof {
            assert(r@.map_values(|b: (usize, usize)| v@.subrange(b.0 as int, b.1 as int))
                =~= old_r.map_values(|b: (usize, usize)| v@.subrange(b.0 as int, b.1 as int))
                + seq![v@.subrange(pos as int, end as int)]);
        }
        if k < n {
            pos = k + 1;
        } else {
            pos = n;
        }
    }
    proof {
        assert(v@.skip(n as int) =~= Seq::<char>::empty());
        assert forall|i: int| 0 <= i < r@.len() implies v@.subrange(
            (#[trigger] r@[i]).0 as int,
            r@[i].1 as int,
        ) == lines(v@)[i] by {
            assert(lines(v@)[i] == r@.map_values(
                |b: (usize, usize)| v@.subrange(b.0 as int, b.1 as int),
            )[i]);
        }
    }
    r
}

/// `str::lines` collected into strings.
pub fn lines_of(s: &str) -> (r: Vec<String>)
    ensures
        views(r@) == lines(s@),
{
    let v = chars_of(s);
    let b = line_bounds(&v);
    let mut r: Vec<String> = Vec::new();
    let mut i: usize = 0;
    while i < b.len()
        invariant
            i <= b.len(),
            v@ == s@,
            b@.len() == lines(v@).len(),
            forall|j: int|
                0 <= j < b@.len() ==> {
                    &&& (#[trigger] b@[j]).0 <= b@[j].1 <= v@.len()
                    &&& v@.subrange(b@[j].0 as int, b@[j].1 as int) == lines(v@)[j]
                },
            views(r@) == lines(v@).take(i as int),
        decreases b.len() - i,
    {
        let (from, to) = b[i];
        r.push(string_of_range(&v, from, to));
        proof {
            assert(views(r@) =~= views(r@.drop_last()).push(r@.last()@));
            assert(lines(v@).take(i + 1) =~= lines(v@).take(i as int).push(lines(v@)[i as int]));
        }
        i = i + 1;
    }
    assert(lines(v@).take(b.len() as int) =~= lines(v@));
    r
}

// ───────────────────────── searching ─────────────────────────

/// `p` occurs in `s` starting at index `i`.
pub open spec fn occurs_at(s: Seq<char>, p: Seq<char>, i: int) -> bool {
    0 <= i && i + p.len() <= s.len() && s.subrange(i, i + p.len()) == p
}

/// `p` occurs somewhere in `s` (`str::contains`).
pub open spec fn contains(s: Seq<char>, p: Seq<char>) -> bool {
    exists|i: int| occurs_at(s, p, i)
}

/// Index of the last `c` in `s` (`str::rfind`).
pub open spec fn last_index_of(s: Seq<char>, c: char) -> Option<int>
    decreases s.len(),
{
    if s.len() == 0 {
        None
    } else if s.last() == c {
        Some(s.len() - 1)
    } else {
        last_index_of(s.drop_last(), c)
    }
}

/// The decimal text of `n` is a nonempty run of digits whose value is `n`.
pub proof fn lemma_decimal_digits(n: nat)
    ensures
        decimal(n).len() > 0,
        all_digits(decimal(n)),
        digits_value(decimal(n)) == n,
    decreases n,
{
    if n < 10 {
        let d = decimal(n);
        assert(d.drop_last() =~= Seq::<char>::empty());
        assert(digit_value(digit_char(n)) == n);
        assert(digits_value(Seq::<char>::empty()) == 0);
        assert(d.last() == digit_char(n));
        assert(digits_value(d) == digits_value(d.drop_last()) * 10 + digit_value(d.last()));
    } else {
        lemma_decimal_digits(n / 10);
        let d = decimal(n);
        assert(d.drop_last() =~= decimal(n / 10));
        assert(digit_value(digit_char(n % 10)) == n % 10);
        assert((n / 10) * 10 + n % 10 == n) by (nonlinear_arith);
        assert(d.last() == digit_char(n % 10));
        assert(digits_value(d) == digits_value(d.drop_last()) * 10 + digit_value(d.last()));
        assert forall|i: int| 0 <= i < d.len() implies is_digit(#[trigger] d[i]) by {
            if i < d.len() - 1 {
                assert(d[i] == decimal(n / 10)[i]);
            }
        }
    }
}

/// In `f + ":" + x`, where `x` holds no colon, the last colon is the one
/// after `f`.
pub proof fn lemma_last_colon_after(f: Seq<char>, x: Seq<char>)
    requires
        forall|i: int| 0 <= i < x.len() ==> x[i] != ':',
    ensures
        last_index_of(f + seq![':'] + x, ':') == Some(f.len() as int),
    decreases x.len(),
{
    let s = f + seq![':'] + x;
    if x.len() > 0 {
        assert(s.last() == x.last());
        assert(s.drop_last() =~= f + seq![':'] + x.drop_last());
        lemma_last_colon_after(f, x.drop_last());
    }
}

/// A text without `c` has no last `c`.
pub proof fn lemma_no_last_index(f: Seq<char>, c: char)
    requires
        forall|i: int| 0 <= i < f.len() ==> f[i] != c,
    ensures
        last_index_of(f, c) is None,
    decreases f.len(),
{
    if f.len() > 0 {
        assert(f.last() == f[f.len() - 1]);
        lemma_no_last_index(f.drop_last(), c);
    }
}

/// A run of digits is its own trim.
pub proof fn lemma_digits_trimmed(d: Seq<char>)
    requires
        all_digits(d),
    ensures
        trim(d) == d,
{
    if d.len() > 0 {
        assert(is_digit(d[d.len() - 1]) && is_digit(d[0]));
    }
    lemma_trim_end_at(d, d.len() as int);
    assert(d.take(d.len() as int) =~= d);
    lemma_trim_start_at(d, 0);
    assert(d.skip(0) =~= d);
}

pub proof fn lemma_last_index_of(s: Seq<char>, c: char)
    ensures
        match last_index_of(s, c) {
            Some(i) => 0 <= i < s.len() && s[i] == c && forall|j: int| i < j < s.len() ==> s[j]
                != c,
            None => forall|j: int| 0 <= j < s.len() ==> s[j] != c,
        },
    decreases s.len(),
{
    if s.len() > 0 && s.last() != c {
        let t = s.drop_last();
        lemma_last_index_of(t, c);
        assert forall|j: int| 0 <= j < t.len() implies t[j] == s[j] by {}
    }
}

/// Index of the last `c` in `v[0..end]`.
pub fn last_index_in(v: &Vec<char>, end: usize, c: char) -> (r: Option<usize>)
    requires
        end <= v.len(),
    ensures
        match r {
            Some(i) => last_index_of(v@.take(end as int), c) == Some(i as int),
            None => last_index_of(v@.take(end as int), c) is None,
        },
{
    let mut k = end;
    while k > 0
        invariant
            k <= end <= v.len(),
            last_index_of(v@.take(end as int), c) == last_index_of(v@.take(k as int), c),
        decreases k,
    {
        assert(v@.take(k as int).drop_last() =~= v@.take(k - 1));
        if v[k - 1] == c {
            return Some(k - 1);
        }
        k = k - 1;
    }
    None
}

/// `p` occurs in `v[from..to]` at absolute index `i`.
pub fn occurs_at_exec(v: &Vec<char>, to: usize, p: &Vec<char>, i: usize) -> (r: bool)
    requires
        to <= v.len(),
    ensures
        r == (i + p.len() <= to && v@.subrange(i as int, i + p.len()) == p@),
{
    if p.len() > to || i > to - p.len() {
        return false;
    }
    let mut j: usize = 0;
    while j < p.len()
        invariant
            i + p.len() <= to <= v.len(),
            j <= p.len(),
            forall|t: int| 0 <= t < j ==> v@[i + t] == p@[t],
        decreases p.len() - j,
    {
        if v[i + j] != p[j] {
            assert(v@.subrange(i as int, i + p.len())[j as int] != p@[j as int]);
            return false;
        }
        j = j + 1;
    }
    assert(v@.subrange(i as int, i + p.len()) =~= p@);
    true
}

/// Whether `p` occurs in `v[from..to]`.
pub fn contains_range(v: &Vec<char>, from: usize, to: usize, p: &Vec<char>) -> (r: bool)
    requires
        from <= to <= v.len(),
    ensures
        r == contains(v@.subrange(from as int, to as int), p@),
{
    let ghost s = v@.subrange(from as int, to as int);
    if p.len() == 0 {
        assert(s.subrange(0, 0) =~= p@);
        assert(occurs_at(s, p@, 0));
        return true;
    }
    if p.len() > to - from {
        assert forall|t: int| !occurs_at(s, p@, t) by {}
        return false;
    }
    let count = to - from - p.len() + 1;
    let mut k: usize = 0;
    while k < count
        invariant
            count == to - from - p.len() + 1,
            from <= to <= v.len(),
            p.len() >= 1,
            k <= count,
            s == v@.subrange(from as int, to as int),
            forall|t: int| 0 <= t < k ==> !#[trigger] occurs_at(s, p@, t),
        decreases count - k,
    {
        let i = from + k;
        let found = occurs_at_exec(v, to, p, i);
        proof {
            if k + p.len() <= s.len() {
                assert(s.subrange(k as int, k + p@.len()) =~= v@.subrange(i as int, i + p@.len()));
            }
        }
        if found {
            assert(occurs_at(s, p@, k as int));
            return true;
        }
        k = k + 1;
    }
    assert forall|t: int| !occurs_at(s, p@, t) by {
        if 0 <= t && t >= count {
            assert(t + p.len() > s.len());
        }
    }
    false
}

/// `str::contains` on string slices.
pub fn contains_str(s: &str, p: &str) -> (r: bool)
    ensures
        r == contains(s@, p@),
{
    let v = chars_of(s);
    let pv = chars_of(p);
    assert(v@.subrange(0, v@.len() as int) =~= v@);
    contains_range(&v, 0, v.len(), &pv)
}

// ───────────────────────── decimal numbers ─────────────────────────

pub open spec fn digit_char(d: nat) -> char {
    if d == 0 {
        '0'
    } else if d == 1 {
        '1'
    } else if d == 2 {
        '2'
    } else if d == 3 {
        '3'
    } else if d == 4 {
        '4'
    } else if d == 5 {
        '5'
    } else if d == 6 {
        '6'
    } else if d == 7 {
        '7'
    } else if d == 8 {
        '8'
    } else {
        '9'
    }
}

/// The decimal digits of `n` without leading zeros (`"0"` for zero).
pub open spec fn decimal(n: nat) -> Seq<char>
    decreases n,
{
    if n < 10 {
        seq![digit_char(n)]
    } else {
        decimal(n / 10).push(digit_char(n % 10))
    }
}

/// Signed decimal text of `n` (a leading `-` when negative).
pub open spec fn signed_decimal(n: int) -> Seq<char> {
    if n < 0 {
        seq!['-'] + decimal((-n) as nat)
    } else {
        decimal(n as nat)
    }
}

fn digit_of(d: u128) -> (c: char)
    requires
        d < 10,
    ensures
        c == digit_char(d as nat),
{
    if d == 0 {
        '0'
    } else if d == 1 {
        '1'
    } else if d == 2 {
        '2'
    } else if d == 3 {
        '3'
    } else if d == 4 {
        '4'
    } else if d == 5 {
        '5'
    } else if d == 6 {
        '6'
    } else if d == 7 {
        '7'
    } else if d == 8 {
        '8'
    } else {
        '9'
    }
}

/// Appends the decimal text of `n` to `s`.
pub fn push_decimal(s: &mut String, n: u128)
    ensures
        final(s)@ == old(s)@ + decimal(n as nat),
    decreases n,
{
    if n < 10 {
        push_char(s, digit_of(n));
        assert(decimal(n as nat) =~= seq![digit_char(n as nat)]);
    } else {
        push_decimal(s, n / 10);
        push_char(s, digit_of(n % 10));
        assert(decimal(n as nat) == decimal((n / 10) as nat).push(digit_char((n % 10) as nat)));
    }
}

/// Appends the signed decimal text of `n` to `s`.
pub fn push_signed_decimal(s: &mut String, n: i64)
    ensures
        final(s)@ == old(s)@ + signed_decimal(n as int),
{
    if n < 0 {
        push_char(s, '-');
        let m: u128 = (0i128 - (n as i128)) as u128;
        push_decimal(s, m);
    } else {
        push_decimal(s, n as u128);
    }
}

pub open spec fn is_digit(c: char) -> bool {
    '0' <= c && c <= '9'
}

pub open spec fn digit_value(c: char) -> nat {
    ((c as u32) - ('0' as u32)) as nat
}

pub open spec fn all_digits(s: Seq<char>) -> bool {
    forall|i: int| 0 <= i < s.len() ==> is_digit(#[trigger] s[i])
}

/// Value of a sequence of decimal digits.
pub open spec fn digits_value(s: Seq<char>) -> nat
    decreases s.len(),
{
    if s.len() == 0 {
        0
    } else {
        digits_value(s.drop_last()) * 10 + digit_value(s.last())
    }
}

/// What `str::parse` gives for an unsigned integer type without an upper
/// bound: an optional `+`, then one or more ASCII digits.
pub open spec fn parse_unsigned(s: Seq<char>) -> Option<nat> {
    let d = if s.len() > 0 && s[0] == '+' {
        s.drop_first()
    } else {
        s
    };
    if d.len() > 0 && all_digits(d) {
        Some(digits_value(d))
    } else {
        None
    }
}

/// `str::parse` for an unsigned integer type whose largest value is `max`.
pub open spec fn parse_bounded(s: Seq<char>, max: nat) -> Option<nat> {
    match parse_unsigned(s) {
        Some(v) => if v <= max {
            Some(v)
        } else {
            None
        },
        None => None,
    }
}

pub proof fn lemma_digits_value_prefix(s: Seq<char>, k: int)
    requires
        0 <= k <= s.len(),
        all_digits(s),
    ensures
        digits_value(s.take(k)) <= digits_value(s),
    decreases s.len() - k,
{
    if k < s.len() {
        lemma_digits_value_prefix(s, k + 1);
        assert(s.take(k + 1).drop_last() =~= s.take(k));
    } else {
        assert(s.take(k) =~= s);
    }
}

/// Parses `v[from..to]` as an unsigned number no larger than `max`.
pub fn parse_bounded_range(v: &Vec<char>, from: usize, to: usize, max: u64) -> (r: Option<u64>)
    requires
        from <= to <= v.len(),
    ensures
        r == (match parse_bounded(v@.subrange(from as int, to as int), max as nat) {
            Some(x) => Some(x as u64),
            None => None,
        }),
{
    let ghost s = v@.subrange(from as int, to as int);
    let start = if from < to && v[from] == '+' {
        from + 1
    } else {
        from
    };
    let ghost d = v@.subrange(start as int, to as int);
    proof {
        if from < to {
            assert(s[0] == v@[from as int]);
        }
        if s.len() > 0 && s[0] == '+' {
            assert(d =~= s.drop_first());
        } else {
            assert(d =~= s);
        }
    }
    if start == to {
        return None;
    }
    let mut value: u64 = 0;
    let mut i = start;
    while i < to
        invariant
            start <= i <= to <= v.len(),
            d == v@.subrange(start as int, to as int),
            s == v@.subrange(from as int, to as int),
            d == (if s.len() > 0 && s[0] == '+' {
                s.drop_first()
            } else {
                s
            }),
            all_digits(d.take(i - start)),
            value as nat == digits_value(d.take(i - start)),
            value <= max,
        decreases to - i,
    {
        let c = v[i];
        proof {
            assert(d[i - start] == c);
        }
        if c < '0' || c > '9' {
            assert(!all_digits(d));
            assert(parse_unsigned(s) is None);
            return None;
        }
        let dv = (c as u32 - '0' as u32) as u64;
        proof {
            assert(d.take(i - start + 1).drop_last() =~= d.take(i - start));
            assert(d.take(i - start + 1).last() == c);
        }
        if dv > max || value > (max - dv) / 10 {
            proof {
                assert(value * 10 + dv > max) by (nonlinear_arith)
                    requires
                        dv > max || value > (max - dv) / 10,
                ;
                if all_digits(d) {
                    lemma_digits_value_prefix(d, i - start + 1);
                }
            }
            return None;
        }
        proof {
            assert(value * 10 + dv <= max) by (nonlinear_arith)
                requires
                    value <= (max - dv) / 10,
                    dv <= max,
            ;
            assert forall|t: int| 0 <= t < i - start + 1 implies is_digit(
                #[trigger] d.take(i - start + 1)[t],
            ) by {
                if t < i - start {
                    assert(d.take(i - start + 1)[t] == d.take(i - start)[t]);
                }
            }
        }
        value = value * 10 + dv;
        i = i + 1;
    }
    assert(d.take(to - start) =~= d);
    Some(value)
}

/// `str::parse::<u64>` restricted to values no larger than `max`.
pub fn parse_bounded_str(s: &str, max: u64) -> (r: Option<u64>)
    ensures
        r == (match parse_bounded(s@, max as nat) {
            Some(x) => Some(x as u64),
            None => None,
        }),
{
    let v = chars_of(s);
    assert(v@.subrange(0, v@.len() as int) =~= s@);
    parse_bounded_range(&v, 0, v.len(), max)
}

// ───────────────────────── ASCII case ─────────────────────────

pub open spec fn ascii_lower(c: char) -> char {
    if 'A' <= c && c <= 'Z' {
        ((c as u32) + 32) as char
    } else {
        c
    }
}

pub open spec fn ascii_upper(c: char) -> char {
    if 'a' <= c && c <= 'z' {
        ((c as u32) - 32) as char
    } else {
        c
    }
}

pub fn ascii_lower_char(c: char) -> (r: char)
    ensures
        r == ascii_lower(c),
{
    if 'A' <= c && c <= 'Z' {
        ((c as u8) + 32) as char
    } else {
        c
    }
}

pub fn ascii_upper_char(c: char) -> (r: char)
    ensures
        r == ascii_upper(c),
{
    if 'a' <= c && c <= 'z' {
        ((c as u8) - 32) as char
    } else {
        c
    }
}

/// `c` is an ASCII letter.
pub open spec fn ascii_letter(c: char) -> bool {
    ('a' <= c && c <= 'z') || ('A' <= c && c <= 'Z')
}

/// An ASCII letter and a character that is none are unequal ignoring case.
pub proof fn lemma_letter_case(x: char, y: char)
    requires
        ascii_letter(y),
        !ascii_letter(x),
    ensures
        ascii_lower(x) != ascii_lower(y),
{
}

/// Where `c` is no ASCII letter, a character equal ignoring case to one
/// that is not `c` is not `c` either.
pub proof fn lemma_same_case_not(x: char, y: char, c: char)
    requires
        ascii_lower(x) == ascii_lower(y),
        y != c,
        !ascii_letter(c),
    ensures
        x != c,
{
    if x == c {
        lemma_letter_case(c, y);
    }
}

/// Two texts are equal ignoring ASCII case (`str::eq_ignore_ascii_case`).
pub open spec fn eq_ignore_ascii_case(a: Seq<char>, b: Seq<char>) -> bool {
    a.len() == b.len() && forall|i: int| 0 <= i < a.len() ==> ascii_lower(#[trigger] a[i])
        == ascii_lower(b[i])
}

/// Whether `v[from..from + p.len()]` equals `p` ignoring ASCII case.
pub fn eq_ignore_ascii_case_at(v: &Vec<char>, from: usize, p: &Vec<char>) -> (r: bool)
    requires
        from + p.len() <= v.len(),
    ensures
        r == eq_ignore_ascii_case(v@.subrange(from as int, from + p.len()), p@),
{
    let ghost s = v@.subrange(from as int, from + p.len());
    let mut j: usize = 0;
    while j < p.len()
        invariant
            from + p.len() <= v.len(),
            s == v@.subrange(from as int, from + p.len()),
            j <= p.len(),
            forall|t: int| 0 <= t < j ==> ascii_lower(#[trigger] s[t]) == ascii_lower(p@[t]),
        decreases p.len() - j,
    {
        if ascii_lower_char(v[from + j]) != ascii_lower_char(p[j]) {
            assert(s[j as int] == v@[from + j]);
            return false;
        }
        assert(s[j as int] == v@[from + j]);
        j = j + 1;
    }
    true
}

/// `str::eq_ignore_ascii_case` on string slices.
pub fn eq_ignore_ascii_case_str(a: &str, b: &str) -> (r: bool)
    ensures
        r == eq_ignore_ascii_case(a@, b@),
{
    let av = chars_of(a);
    let bv = chars_of(b);
    if av.len() != bv.len() {
        return false;
    }
    assert(av@.subrange(0, bv@.len() as int) =~= av@);
    eq_ignore_ascii_case_at(&av, 0, &bv)
}

/// `s` with ASCII letters lowered (`str::to_ascii_lowercase`).
pub open spec fn ascii_lowercase(s: Seq<char>) -> Seq<char> {
    s.map_values(|c: char| ascii_lower(c))
}

/// `s` with ASCII letters raised (`str::to_ascii_uppercase`).
pub open spec fn ascii_uppercase(s: Seq<char>) -> Seq<char> {
    s.map_values(|c: char| ascii_upper(c))
}

/// `str::to_ascii_uppercase` on `v[from..to]`.
pub fn ascii_uppercase_range(v: &Vec<char>, from: usize, to: usize) -> (r: String)
    requires
        from <= to <= v.len(),
    ensures
        r@ == ascii_uppercase(v@.subrange(from as int, to as int)),
{
    let ghost s = v@.subrange(from as int, to as int);
    let mut r = String::new();
    let mut i = from;
    while i < to
        invariant
            from <= i <= to <= v.len(),
            s == v@.subrange(from as int, to as int),
            r@ == ascii_uppercase(s.take(i - from)),
        decreases to - i,
    {
        push_char(&mut r, ascii_upper_char(v[i]));
        proof {
            assert(s[i - from] == v@[i as int]);
            assert(ascii_uppercase(s.take(i - from + 1)) =~= ascii_uppercase(s.take(i - from)).push(
                ascii_upper(v@[i as int]),
            ));
        }
        i = i + 1;
    }
    assert(s.take(to - from) =~= s);
    r
}

/// `str::to_ascii_lowercase` on a string slice.
pub fn ascii_lowercase_str(s: &str) -> (r: String)
    ensures
        r@ == ascii_lowercase(s@),
{
    let v = chars_of(s);
    let mut r = String::new();
    let mut i: usize = 0;
    while i < v.len()
        invariant
            i <= v.len(),
            v@ == s@,
            r@ == ascii_lowercase(s@.take(i as int)),
        decreases v.len() - i,
    {
        push_char(&mut r, ascii_lower_char(v[i]));
        proof {
            assert(ascii_lowercase(s@.take(i + 1)) =~= ascii_lowercase(s@.take(i as int)).push(
                ascii_lower(v@[i as int]),
            ));
        }
        i = i + 1;
    }
    assert(s@.take(v.len() as int) =~= s@);
    r
}

// ───────────────────────── comparing and joining ─────────────────────────

/// Whether two string slices hold the same characters.
pub fn str_eq(a: &str, b: &str) -> (r: bool)
    ensures
        r == (a@ == b@),
{
    let av = chars_of(a);
    let bv = chars_of(b);
    if av.len() != bv.len() {
        return false;
    }
    let mut i: usize = 0;
    while i < av.len()
        invariant
            i <= av.len() == bv.len(),
            av@ == a@,
            bv@ == b@,
            forall|t: int| 0 <= t < i ==> av@[t] == bv@[t],
        decreases av.len() - i,
    {
        if av[i] != bv[i] {
            return false;
        }
        i = i + 1;
    }
    assert(av@ =~= bv@);
    true
}

/// `parts` joined with `sep` between consecutive elements (`[T]::join`).
pub open spec fn join(parts: Seq<Seq<char>>, sep: Seq<char>) -> Seq<char>
    decreases parts.len(),
{
    if parts.len() == 0 {
        Seq::empty()
    } else if parts.len() == 1 {
        parts[0]
    } else {
        join(parts.drop_last(), sep) + sep + parts.last()
    }
}

/// The view of the one-character literal `"\n"`.
pub proof fn reveal_newline()
    ensures
        "\n"@ == seq!['\n'],
{
    reveal_strlit("\n");
}

/// The views of a vector of strings.
pub open spec fn views(v: Seq<String>) -> Seq<Seq<char>> {
    v.map_values(|s: String| s@)
}

/// `parts.join(sep)` for a vector of strings.
pub fn join_strings(parts: &Vec<String>, sep: &str) -> (r: String)
    ensures
        r@ == join(views(parts@), sep@),
{
    let mut r = String::new();
    let mut i: usize = 0;
    while i < parts.len()
        invariant
            i <= parts.len(),
            r@ == join(views(parts@.take(i as int)), sep@),
        decreases parts.len() - i,
    {
        let ghost before = views(parts@.take(i as int));
        if i > 0 {
            append(&mut r, sep);
        }
        append(&mut r, parts[i].as_str());
        proof {
            let after = views(parts@.take(i + 1));
            assert(after.drop_last() =~= before);
            assert(after.last() == parts@[i as int]@);
            if i == 0 {
                assert(after.len() == 1);
            }
        }
        i = i + 1;
    }
    assert(parts@.take(parts.len() as int) =~= parts@);
    r
}

// ───────────────────────── lines and join ─────────────────────────

/// `s` holds neither `'\n'` nor `'\r'`: it can stand as one line.
pub open spec fn single_line(s: Seq<char>) -> bool {
    forall|i: int| 0 <= i < s.len() ==> s[i] != '\n' && s[i] != '\r'
}

/// `s` holds no `'\r'`.
pub open spec fn no_carriage_return(s: Seq<char>) -> bool {
    forall|i: int| 0 <= i < s.len() ==> s[i] != '\r'
}

pub proof fn lemma_join_prepend(a: Seq<char>, rest: Seq<Seq<char>>, sep: Seq<char>)
    requires
        rest.len() > 0,
    ensures
        join(seq![a] + rest, sep) == a + sep + join(rest, sep),
    decreases rest.len(),
{
    let all = seq![a] + rest;
    assert(join(all, sep) == join(all.drop_last(), sep) + sep + all.last());
    assert(all.last() == rest.last());
    if rest.len() == 1 {
        assert(all.drop_last() =~= seq![a]);
        assert(join(seq![a], sep) == a);
        assert(join(rest, sep) == rest[0]);
        assert(join(all, sep) =~= a + sep + join(rest, sep));
    } else {
        assert(all.drop_last() =~= seq![a] + rest.drop_last());
        lemma_join_prepend(a, rest.drop_last(), sep);
        assert(join(rest, sep) == join(rest.drop_last(), sep) + sep + rest.last());
        assert(join(all, sep) =~= a + sep + join(rest, sep));
    }
}

pub proof fn lemma_join_last(ls: Seq<Seq<char>>, sep: Seq<char>)
    requires
        ls.len() > 0,
        ls.last().len() > 0,
    ensures
        join(ls, sep).len() > 0,
        join(ls, sep).last() == ls.last().last(),
{
}

/// The lines of a single line followed by a newline and more text.
pub proof fn lemma_lines_cons(a: Seq<char>, x: Seq<char>)
    requires
        single_line(a),
    ensures
        lines(a + seq!['\n'] + x) == seq![a] + lines(x),
{
    let s = a + seq!['\n'] + x;
    lemma_line_end_at(s, a.len() as int);
    assert(first_line(s) =~= a);
    assert(after_first_line(s) =~= x);
}

/// The lines of a nonempty single line.
pub proof fn lemma_lines_single(a: Seq<char>)
    requires
        single_line(a),
        a.len() > 0,
    ensures
        lines(a) == seq![a],
{
    lemma_line_end_at(a, a.len() as int);
    assert(first_line(a) =~= a);
    assert(after_first_line(a) =~= Seq::<char>::empty());
    assert(lines(Seq::<char>::empty()) =~= Seq::<Seq<char>>::empty());
    assert(seq![a] + Seq::<Seq<char>>::empty() =~= seq![a]);
}

/// Joining single lines with newlines, a newline after the last, gives
/// text whose lines are those lines.
pub proof fn lemma_lines_of_terminated(ls: Seq<Seq<char>>)
    requires
        ls.len() > 0,
        forall|i: int| 0 <= i < ls.len() ==> single_line(#[trigger] ls[i]),
    ensures
        lines(join(ls, seq!['\n']) + seq!['\n']) == ls,
    decreases ls.len(),
{
    let a = ls[0];
    let rest = ls.skip(1);
    assert(ls =~= seq![a] + rest);
    assert(single_line(ls[0]));
    if rest.len() == 0 {
        assert(join(ls, seq!['\n']) == a);
        lemma_lines_cons(a, Seq::empty());
        assert(a + seq!['\n'] + Seq::<char>::empty() =~= a + seq!['\n']);
        assert(lines(Seq::<char>::empty()) =~= Seq::<Seq<char>>::empty());
        assert(seq![a] + Seq::<Seq<char>>::empty() =~= ls);
    } else {
        assert forall|i: int| 0 <= i < rest.len() implies single_line(#[trigger] rest[i]) by {
            assert(rest[i] == ls[i + 1]);
        }
        lemma_lines_of_terminated(rest);
        lemma_join_prepend(a, rest, seq!['\n']);
        let x = join(rest, seq!['\n']) + seq!['\n'];
        assert(join(ls, seq!['\n']) + seq!['\n'] =~= a + seq!['\n'] + x);
        lemma_lines_cons(a, x);
    }
}

/// Joining single lines with newlines, the last of them nonempty, gives
/// text whose lines are those lines.
pub proof fn lemma_lines_of_joined(ls: Seq<Seq<char>>)
    requires
        ls.len() > 0,
        ls.last().len() > 0,
        forall|i: int| 0 <= i < ls.len() ==> single_line(#[trigger] ls[i]),
    ensures
        lines(join(ls, seq!['\n'])) == ls,
    decreases ls.len(),
{
    let a = ls[0];
    let rest = ls.skip(1);
    assert(ls =~= seq![a] + rest);
    assert(single_line(ls[0]));
    if rest.len() == 0 {
        assert(join(ls, seq!['\n']) == a);
        lemma_lines_single(a);
    } else {
        assert forall|i: int| 0 <= i < rest.len() implies single_line(#[trigger] rest[i]) by {
            assert(rest[i] == ls[i + 1]);
        }
        assert(rest.last() == ls.last());
        lemma_lines_of_joined(rest);
        lemma_join_prepend(a, rest, seq!['\n']);
        lemma_lines_cons(a, join(rest, seq!['\n']));
    }
}

/// Each line of a text without `'\r'` is a single line; the last is
/// nonempty when the text does not end with a newline.
pub proof fn lemma_lines_shape(s: Seq<char>)
    requires
        no_carriage_return(s),
    ensures
        forall|i: int| 0 <= i < lines(s).len() ==> single_line(#[trigger] lines(s)[i]),
        s.len() > 0 ==> lines(s).len() > 0,
        s.len() > 0 && s.last() != '\n' ==> lines(s).last().len() > 0,
        s == join(lines(s), seq!['\n']) + if s.len() > 0 && s.last() == '\n' {
            seq!['\n']
        } else {
            Seq::empty()
        },
    decreases s.len(),
{
    if s.len() > 0 {
        lemma_line_end_bound(s);
        let k = line_end(s) as int;
        let f = first_line(s);
        let x = after_first_line(s);
        assert(f =~= s.take(k));
        assert(single_line(f));
        if k < s.len() {
            assert(x =~= s.skip(k + 1));
            assert(no_carriage_return(x));
            lemma_lines_shape(x);
            assert(lines(s) == seq![f] + lines(x));
            assert forall|i: int| 0 <= i < lines(s).len() implies single_line(
                #[trigger] lines(s)[i],
            ) by {
                if i > 0 {
                    assert(lines(s)[i] == lines(x)[i - 1]);
                }
            }
            if x.len() == 0 {
                assert(lines(x) =~= Seq::<Seq<char>>::empty());
                assert(lines(s) =~= seq![f]);
                assert(s =~= f + seq!['\n']);
            } else {
                lemma_join_prepend(f, lines(x), seq!['\n']);
                assert(s =~= f + seq!['\n'] + x);
                assert(s.last() == x.last());
                assert(lines(s).last() == lines(x).last());
                assert(s =~= join(lines(s), seq!['\n']) + if s.last() == '\n' {
                    seq!['\n']
                } else {
                    Seq::empty()
                });
            }
        } else {
            assert(f =~= s);
            assert(x =~= Seq::<char>::empty());
            assert(lines(x) =~= Seq::<Seq<char>>::empty());
            assert(lines(s) =~= seq![s]);
            assert(s.last() == s[s.len() - 1]);
        }
    }
}

// ───────────────────────── the fuse grammar's classes ─────────────────────────

/// `c` is an ASCII character.
pub open spec fn is_ascii_char(c: char) -> bool {
    (c as u32) < 128
}

/// Every character of `s` is ASCII.
pub open spec fn ascii_text(s: Seq<char>) -> bool {
    forall|i: int| 0 <= i < s.len() ==> is_ascii_char(#[trigger] s[i])
}

/// Whether the `regex` crate's `\d` (Unicode decimal digits) matches `c`.
pub uninterp spec fn regex_decimal_digit(c: char) -> bool;

/// Asks the `regex` crate whether `\d` matches the character `c` alone.
/// Claimed: the answer is the named result for `c`.
#[verifier::external_body]
fn regex_is_decimal_digit(c: char) -> (r: bool)
    ensures
        r == regex_decimal_digit(c),
{
    let mut buf = [0u8; 4];
    regex::Regex::new(r"^\d$").unwrap().is_match(c.encode_utf8(&mut buf))
}

/// Whether the `regex` crate, matching case-insensitively (`(?i)`, Unicode
/// simple case folding), lets the literal character `t` match `c`.
pub uninterp spec fn regex_fold_match(t: char, c: char) -> bool;

/// Asks the `regex` crate whether `(?i)` and the escaped literal `t` match
/// the character `c` alone. Claimed: the answer is the named result.
#[verifier::external_body]
fn regex_fold_matches(t: char, c: char) -> (r: bool)
    ensures
        r == regex_fold_match(t, c),
{
    let mut tb = [0u8; 4];
    let mut cb = [0u8; 4];
    let pattern = format!("(?i)^{}$", regex::escape(t.encode_utf8(&mut tb)));
    regex::Regex::new(&pattern).unwrap().is_match(c.encode_utf8(&mut cb))
}

/// A digit of the fuse grammar: what `\d` matches, the ASCII digits among
/// the ASCII characters.
#[verifier::opaque]
pub open spec fn decimal_digit(c: char) -> bool {
    if is_ascii_char(c) {
        is_digit(c)
    } else {
        regex_decimal_digit(c)
    }
}

/// Whether `c` is a digit of the fuse grammar.
pub fn decimal_digit_char(c: char) -> (r: bool)
    ensures
        r == decimal_digit(c),
{
    reveal(decimal_digit);
    if (c as u32) < 128 {
        '0' <= c && c <= '9'
    } else {
        regex_is_decimal_digit(c)
    }
}

/// The trigger character `t` matches `c` ignoring case as the fuse
/// pattern's `(?i)` does; between ASCII characters, that is ASCII case.
pub open spec fn fold_eq(t: char, c: char) -> bool {
    if is_ascii_char(t) && is_ascii_char(c) {
        ascii_lower(t) == ascii_lower(c)
    } else {
        regex_fold_match(t, c)
    }
}

/// Whether the trigger character `t` matches `c` ignoring case.
pub fn fold_eq_char(t: char, c: char) -> (r: bool)
    ensures
        r == fold_eq(t, c),
{
    if (t as u32) < 128 && (c as u32) < 128 {
        ascii_lower_char(t) == ascii_lower_char(c)
    } else {
        regex_fold_matches(t, c)
    }
}

/// The text `s` matches the trigger `t` character by character, ignoring
/// case as the fuse pattern does.
#[verifier::opaque]
pub open spec fn fold_matches(s: Seq<char>, t: Seq<char>) -> bool {
    s.len() == t.len() && forall|i: int| 0 <= i < s.len() ==> fold_eq(t[i], #[trigger] s[i])
}

/// Whether `v[from..from + p.len()]` matches the trigger `p`.
pub fn fold_matches_at(v: &Vec<char>, from: usize, p: &Vec<char>) -> (r: bool)
    requires
        from + p.len() <= v.len(),
    ensures
        r == fold_matches(v@.subrange(from as int, from + p.len()), p@),
{
    reveal(fold_matches);
    let ghost s = v@.subrange(from as int, from + p.len());
    let mut j: usize = 0;
    while j < p.len()
        invariant
            from + p.len() <= v.len(),
            s == v@.subrange(from as int, from + p.len()),
            j <= p.len(),
            forall|t: int| 0 <= t < j ==> fold_eq(p@[t], #[trigger] s[t]),
        decreases p.len() - j,
    {
        assert(s[j as int] == v@[from + j]);
        if !fold_eq_char(p[j], v[from + j]) {
            proof {
                reveal(fold_matches);
            }
            return false;
        }
        j = j + 1;
    }
    proof {
        reveal(fold_matches);
    }
    true
}

/// Between ASCII characters, matching ignoring case is equality up to ASCII
/// case; so a character matched by an ASCII trigger character `t` is no
/// ASCII non-letter `x` other than `t`.
pub proof fn lemma_fold_not(t: char, c: char, x: char)
    requires
        fold_eq(t, c),
        is_ascii_char(t),
        is_ascii_char(x),
        !ascii_letter(x),
        t != x,
    ensures
        c != x,
{
    if c == x {
        lemma_same_case_not(x, t, x);
    }
}

// ───────────────────────── Unicode case ─────────────────────────

/// What `str::to_lowercase` gives for `s`.
pub uninterp spec fn lowercased(s: Seq<char>) -> Seq<char>;

/// What `str::to_uppercase` gives for `s`.
pub uninterp spec fn uppercased(s: Seq<char>) -> Seq<char>;

/// Calls `str::to_lowercase` (Unicode lowercase mapping). Claimed: the
/// result is the named lowercase text of `s`, and on ASCII text it is the
/// ASCII lowercase, as Unicode maps the ASCII letters.
#[verifier::external_body]
pub(crate) fn std_to_lowercase(s: &str) -> (r: String)
    ensures
        r@ == lowercased(s@),
        ascii_text(s@) ==> r@ == ascii_lowercase(s@),
{
    s.to_lowercase()
}

/// Calls `str::to_uppercase` (Unicode uppercase mapping). Claimed: the
/// result is the named uppercase text of `s`, and on ASCII text it is the
/// ASCII uppercase, as Unicode maps the ASCII letters.
#[verifier::external_body]
pub(crate) fn std_to_uppercase(s: &str) -> (r: String)
    ensures
        r@ == uppercased(s@),
        ascii_text(s@) ==> r@ == ascii_uppercase(s@),
{
    s.to_uppercase()
}

// ───────────────────────── padding ─────────────────────────

/// `n` spaces.
pub open spec fn spaces(n: int) -> Seq<char> {
    Seq::new(if n > 0 { n as nat } else { 0 }, |i: int| ' ')
}

/// `s` padded with spaces on the right to at least `width` characters
/// (`{:<width}`).
pub open spec fn padded_right(s: Seq<char>, width: int) -> Seq<char> {
    s + spaces(width - s.len())
}

/// `s` padded with spaces on the left to at least `width` characters
/// (`{:>width}`).
pub open spec fn padded_left(s: Seq<char>, width: int) -> Seq<char> {
    spaces(width - s.len()) + s
}

fn push_spaces(s: &mut String, n: usize)
    ensures
        final(s)@ == old(s)@ + spaces(n as int),
{
    let ghost start = s@;
    let mut k: usize = 0;
    while k < n
        invariant
            k <= n,
            s@ == start + spaces(k as int),
        decreases n - k,
    {
        push_char(s, ' ');
        assert(spaces(k + 1) =~= spaces(k as int).push(' '));
        k = k + 1;
    }
}

/// Appends `t` padded on the right to `width` characters.
pub fn push_padded_right(s: &mut String, t: &str, width: usize)
    ensures
        final(s)@ == old(s)@ + padded_right(t@, width as int),
{
    let n = chars_of(t).len();
    append(s, t);
    if n < width {
        push_spaces(s, width - n);
    } else {
        assert(spaces(width - n) =~= Seq::<char>::empty());
    }
}

/// Appends `t` padded on the left to `width` characters.
pub fn push_padded_left(s: &mut String, t: &str, width: usize)
    ensures
        final(s)@ == old(s)@ + padded_left(t@, width as int),
{
    let n = chars_of(t).len();
    if n < width {
        push_spaces(s, width - n);
    } else {
        assert(spaces(width - n) =~= Seq::<char>::empty());
    }
    append(s, t);
}

/// The decimal text of `n`.
pub fn decimal_string(n: u128) -> (r: String)
    ensures
        r@ == decimal(n as nat),
{
    let mut r = String::new();
    push_decimal(&mut r, n);
    r
}

} // verus!
