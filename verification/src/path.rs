//! Paths compared and ordered component by component, as `std::path::Path`
//! compares them.

use crate::order::{lemma_lex_irreflexive, lemma_lex_total, lex_lt};
use crate::text::{chars_of, push_char, str_eq};
use vstd::prelude::*;

verus! {

/// The components that `std::path::Path::components` yields for the path
/// `p`, each as its kind (0 a prefix, 1 the root, 2 `.`, 3 `..`, 4 a normal
/// name) and its text (empty for the root, `.` and `..`).
pub uninterp spec fn path_components(p: Seq<char>) -> Seq<(u8, Seq<char>)>;

/// The plain values of a list of components.
pub open spec fn components_view(v: Seq<(u8, String)>) -> Seq<(u8, Seq<char>)> {
    Seq::new(v.len(), |i: int| (v[i].0, v[i].1@))
}

/// Calls `std::path::Path::components` on `p`. Claimed: the components it
/// yields, in order, are the named ones, each tagged with its kind.
#[verifier::external_body]
fn std_path_components(p: &str) -> (r: Vec<(u8, String)>)
    ensures
        components_view(r@) == path_components(p@),
        forall|i: int| 0 <= i < r@.len() ==> #[trigger] r@[i].0 <= 4,
{
    let mut r = Vec::new();
    for c in std::path::Path::new(p).components() {
        match c {
            std::path::Component::Prefix(x) => r.push((0u8, x.as_os_str().to_string_lossy().into_owned())),
            std::path::Component::RootDir => r.push((1u8, String::new())),
            std::path::Component::CurDir => r.push((2u8, String::new())),
            std::path::Component::ParentDir => r.push((3u8, String::new())),
            std::path::Component::Normal(x) => r.push((4u8, x.to_string_lossy().into_owned())),
        }
    }
    r
}

/// `a` and `b` name the same path: they have the same components.
pub open spec fn same_path(a: Seq<char>, b: Seq<char>) -> bool {
    path_components(a) == path_components(b)
}

/// The component list `a` sorts before `b`: compared one component at a
/// time, each by kind and then by text, a proper prefix first.
pub open spec fn components_lt(a: Seq<(u8, Seq<char>)>, b: Seq<(u8, Seq<char>)>) -> bool
    decreases a.len(),
{
    if a.len() == 0 {
        b.len() > 0
    } else if b.len() == 0 {
        false
    } else if a[0] == b[0] {
        components_lt(a.drop_first(), b.drop_first())
    } else {
        a[0].0 < b[0].0 || (a[0].0 == b[0].0 && lex_lt(a[0].1, b[0].1))
    }
}

/// The path `a` sorts before the path `b`, component by component.
pub open spec fn path_lt(a: Seq<char>, b: Seq<char>) -> bool {
    components_lt(path_components(a), path_components(b))
}

// ─────────────── a text key that sorts as the components do ───────────────

/// A component text with each NUL written as NUL, U+0001.
pub open spec fn escaped(t: Seq<char>) -> Seq<char>
    decreases t.len(),
{
    if t.len() == 0 {
        Seq::empty()
    } else {
        (if t[0] == '\0' { seq!['\0', '\u{1}'] } else { seq![t[0]] }) + escaped(t.drop_first())
    }
}

/// The character that stands for a component's kind in its key.
pub open spec fn kind_char(k: u8) -> char {
    (k + 1) as char
}

/// One component's key: its kind, its escaped text, then NUL, NUL.
pub open spec fn component_key(c: (u8, Seq<char>)) -> Seq<char> {
    seq![kind_char(c.0)] + escaped(c.1) + seq!['\0', '\0']
}

/// The key of a component list: its components' keys one after another.
pub open spec fn components_key(cs: Seq<(u8, Seq<char>)>) -> Seq<char>
    decreases cs.len(),
{
    if cs.len() == 0 {
        Seq::empty()
    } else {
        component_key(cs[0]) + components_key(cs.drop_first())
    }
}

/// The key of the path `p`.
pub open spec fn path_key(p: Seq<char>) -> Seq<char> {
    components_key(path_components(p))
}

proof fn lemma_lex_prefix(p: Seq<char>, s: Seq<char>, t: Seq<char>)
    ensures
        lex_lt(p + s, p + t) == lex_lt(s, t),
        (p + s == p + t) == (s == t),
    decreases p.len(),
{
    if p.len() == 0 {
        assert(p + s =~= s);
        assert(p + t =~= t);
    } else {
        lemma_lex_prefix(p.drop_first(), s, t);
        assert((p + s).drop_first() =~= p.drop_first() + s);
        assert((p + t).drop_first() =~= p.drop_first() + t);
        if p + s == p + t {
            assert((p + s).drop_first() == (p + t).drop_first());
        }
    }
}

proof fn lemma_above_nul(c: char)
    requires
        c != '\0',
    ensures
        '\0' < c,
{
}

proof fn lemma_escaped_order(t1: Seq<char>, t2: Seq<char>, r1: Seq<char>, r2: Seq<char>)
    requires
        t1 != t2,
    ensures
        lex_lt(escaped(t1) + seq!['\0', '\0'] + r1, escaped(t2) + seq!['\0', '\0'] + r2) == lex_lt(t1, t2),
    decreases t1.len(),
{
    let z: Seq<char> = seq!['\0', '\0'];
    let x = escaped(t1) + z + r1;
    let y = escaped(t2) + z + r2;
    if t1.len() == 0 && t2.len() == 0 {
        assert(t1 =~= t2);
    } else if t1.len() == 0 {
        assert(x =~= z + r1);
        let e = if t2[0] == '\0' { seq!['\0', '\u{1}'] } else { seq![t2[0]] };
        assert(y =~= e + (escaped(t2.drop_first()) + z + r2));
        if t2[0] == '\0' {
            assert(x[0] == y[0]);
            assert(x.drop_first()[0] == '\0');
            assert(y.drop_first()[0] == '\u{1}');
            assert(lex_lt(x.drop_first(), y.drop_first()));
        } else {
            assert(x[0] == '\0');
            assert(y[0] == t2[0]);
            lemma_above_nul(t2[0]);
            assert(lex_lt(x, y));
        }
        assert(lex_lt(t1, t2));
    } else if t2.len() == 0 {
        assert(y =~= z + r2);
        let e = if t1[0] == '\0' { seq!['\0', '\u{1}'] } else { seq![t1[0]] };
        assert(x =~= e + (escaped(t1.drop_first()) + z + r1));
        if t1[0] == '\0' {
            assert(x[0] == y[0]);
            assert(x.drop_first()[0] == '\u{1}');
            assert(y.drop_first()[0] == '\0');
            assert(!lex_lt(x.drop_first(), y.drop_first()));
        } else {
            assert(y[0] == '\0');
            assert(x[0] == t1[0]);
            lemma_above_nul(t1[0]);
            assert(!lex_lt(x, y));
        }
        assert(!lex_lt(t1, t2));
    } else {
        let e1 = if t1[0] == '\0' { seq!['\0', '\u{1}'] } else { seq![t1[0]] };
        let e2 = if t2[0] == '\0' { seq!['\0', '\u{1}'] } else { seq![t2[0]] };
        let x1 = escaped(t1.drop_first()) + z + r1;
        let y1 = escaped(t2.drop_first()) + z + r2;
        assert(x =~= e1 + x1);
        assert(y =~= e2 + y1);
        if t1[0] == t2[0] {
            assert(e1 == e2);
            if t1.drop_first() == t2.drop_first() {
                assert(t1 =~= seq![t1[0]] + t1.drop_first());
                assert(t2 =~= seq![t2[0]] + t2.drop_first());
            }
            lemma_escaped_order(t1.drop_first(), t2.drop_first(), r1, r2);
            lemma_lex_prefix(e1, x1, y1);
        } else if t1[0] == '\0' {
            assert(x[0] == '\0');
            assert(y[0] == t2[0]);
            lemma_above_nul(t2[0]);
        } else if t2[0] == '\0' {
            assert(y[0] == '\0');
            assert(x[0] == t1[0]);
            lemma_above_nul(t1[0]);
        } else {
            assert(x[0] == t1[0] && y[0] == t2[0]);
        }
    }
}

/// The key of a component list sorts as the components do, and two lists
/// with one key are one list.
pub proof fn lemma_components_key(a: Seq<(u8, Seq<char>)>, b: Seq<(u8, Seq<char>)>)
    ensures
        lex_lt(components_key(a), components_key(b)) == components_lt(a, b),
        components_key(a) == components_key(b) ==> a == b,
    decreases a.len(),
{
    let x = components_key(a);
    let y = components_key(b);
    if a.len() == 0 && b.len() == 0 {
        assert(a =~= b);
    } else if a.len() == 0 {
        assert(y.len() > 0);
    } else if b.len() == 0 {
        assert(x.len() > 0);
    } else {
        let ra = components_key(a.drop_first());
        let rb = components_key(b.drop_first());
        let z: Seq<char> = seq!['\0', '\0'];
        assert(x =~= seq![kind_char(a[0].0)] + (escaped(a[0].1) + z + ra));
        assert(y =~= seq![kind_char(b[0].0)] + (escaped(b[0].1) + z + rb));
        if a[0].0 != b[0].0 {
            assert(kind_char(a[0].0) as int == a[0].0 + 1);
            assert(kind_char(b[0].0) as int == b[0].0 + 1);
            assert(x[0] != y[0]);
        } else if a[0].1 != b[0].1 {
            lemma_escaped_order(a[0].1, b[0].1, ra, rb);
            lemma_escaped_order(b[0].1, a[0].1, rb, ra);
            lemma_lex_prefix(seq![kind_char(a[0].0)], escaped(a[0].1) + z + ra, escaped(b[0].1) + z + rb);
            lemma_lex_prefix(seq![kind_char(a[0].0)], escaped(b[0].1) + z + rb, escaped(a[0].1) + z + ra);
            lemma_lex_total(a[0].1, b[0].1);
            if x == y {
                lemma_lex_irreflexive(x);
            }
        } else {
            assert(a[0] == b[0]);
            lemma_components_key(a.drop_first(), b.drop_first());
            lemma_lex_prefix(component_key(a[0]), ra, rb);
            if x == y {
                assert(a =~= seq![a[0]] + a.drop_first());
                assert(b =~= seq![b[0]] + b.drop_first());
            }
        }
    }
}

proof fn lemma_escaped_push(t: Seq<char>, c: char)
    ensures
        escaped(t.push(c)) == escaped(t) + if c == '\0' { seq!['\0', '\u{1}'] } else { seq![c] },
    decreases t.len(),
{
    if t.len() == 0 {
        assert(t.push(c).drop_first() =~= Seq::<char>::empty());
        assert(t.push(c)[0] == c);
        assert(escaped(Seq::<char>::empty()) =~= Seq::<char>::empty());
        assert(escaped(t.push(c)) =~= (if c == '\0' { seq!['\0', '\u{1}'] } else { seq![c] }) + Seq::<char>::empty());
        assert(escaped(t) =~= Seq::<char>::empty());
    } else {
        lemma_escaped_push(t.drop_first(), c);
        assert(t.push(c).drop_first() =~= t.drop_first().push(c));
        assert(t.push(c)[0] == t[0]);
    }
}

proof fn lemma_components_key_push(cs: Seq<(u8, Seq<char>)>, c: (u8, Seq<char>))
    ensures
        components_key(cs.push(c)) == components_key(cs) + component_key(c),
    decreases cs.len(),
{
    if cs.len() == 0 {
        assert(cs.push(c).drop_first() =~= Seq::<(u8, Seq<char>)>::empty());
        assert(cs.push(c)[0] == c);
        assert(components_key(Seq::<(u8, Seq<char>)>::empty()) =~= Seq::<char>::empty());
        assert(components_key(cs.push(c)) =~= component_key(c) + Seq::<char>::empty());
    } else {
        lemma_components_key_push(cs.drop_first(), c);
        assert(cs.push(c).drop_first() =~= cs.drop_first().push(c));
        assert(cs.push(c)[0] == cs[0]);
    }
}

/// Appends the escaped text `t` to `key`.
fn push_escaped(key: &mut String, t: &str)
    ensures
        final(key)@ == old(key)@ + escaped(t@),
{
    let tv = chars_of(t);
    let mut i: usize = 0;
    proof {
        assert(t@.take(0) =~= Seq::<char>::empty());
        assert(key@ =~= old(key)@ + escaped(Seq::<char>::empty()));
    }
    while i < tv.len()
        invariant
            i <= tv.len(),
            tv@ == t@,
            key@ == old(key)@ + escaped(t@.take(i as int)),
        decreases tv.len() - i,
    {
        let c = tv[i];
        proof {
            assert(t@.take(i + 1) =~= t@.take(i as int).push(c));
            lemma_escaped_push(t@.take(i as int), c);
        }
        if c == '\0' {
            push_char(key, '\0');
            push_char(key, '\u{1}');
        } else {
            push_char(key, c);
        }
        proof {
            assert(key@ =~= old(key)@ + escaped(t@.take(i + 1)));
        }
        i = i + 1;
    }
    assert(t@.take(tv.len() as int) =~= t@);
}

/// The key of the path `p`: its texts sort as the paths do, component by
/// component, and two paths have one key exactly when they are the same
/// path.
pub fn path_key_of(p: &str) -> (k: String)
    ensures
        k@ == path_key(p@),
{
    let cs = std_path_components(p);
    let ghost cv = components_view(cs@);
    let mut key = String::new();
    let mut i: usize = 0;
    proof {
        assert(cv.take(0) =~= Seq::<(u8, Seq<char>)>::empty());
    }
    while i < cs.len()
        invariant
            i <= cs.len(),
            cv == components_view(cs@),
            forall|j: int| 0 <= j < cs@.len() ==> #[trigger] cs@[j].0 <= 4,
            key@ == components_key(cv.take(i as int)),
        decreases cs.len() - i,
    {
        let kind = cs[i].0;
        let ghost before = key@;
        proof {
            assert(cv.take(i + 1) =~= cv.take(i as int).push(cv[i as int]));
            lemma_components_key_push(cv.take(i as int), cv[i as int]);
        }
        let kc: char = (kind + 1) as char;
        push_char(&mut key, kc);
        push_escaped(&mut key, cs[i].1.as_str());
        push_char(&mut key, '\0');
        push_char(&mut key, '\0');
        proof {
            assert(key@ =~= before + component_key(cv[i as int]));
        }
        i = i + 1;
    }
    assert(cv.take(cs.len() as int) =~= cv);
    key
}

/// Whether `a` and `b` name the same path, component by component.
pub fn paths_equal(a: &str, b: &str) -> (r: bool)
    ensures
        r == same_path(a@, b@),
{
    let ka = path_key_of(a);
    let kb = path_key_of(b);
    proof {
        lemma_components_key(path_components(a@), path_components(b@));
    }
    str_eq(ka.as_str(), kb.as_str())
}

} // verus!
