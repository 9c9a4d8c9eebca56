//! The baseline: counts of detonated and ticking fuses saved at one time,
//! and the ratchet that keeps them from growing.

use crate::text::{
    append, decimal, decimal_string, push_char, padded_left, padded_right, push_decimal, push_padded_left,
    push_padded_right, to_owned, views,
};
use vstd::prelude::*;

verus! {

/// A saved snapshot of the fuse counts.
#[derive(Debug)]
pub struct Baseline {
    /// When the snapshot was taken (RFC 3339), as supplied by the caller.
    pub generated_at: String,
    /// Detonated fuses at that time.
    pub expired: usize,
    /// Ticking fuses at that time.
    pub expiring_soon: usize,
}

pub open spec fn max_expired_message(expired: nat, limit: nat) -> Seq<char> {
    "expired count "@ + decimal(expired) + " exceeds max_expired limit of "@ + decimal(limit)
}

pub open spec fn max_expiring_soon_message(soon: nat, limit: nat) -> Seq<char> {
    "expiring_soon count "@ + decimal(soon) + " exceeds max_expiring_soon limit of "@ + decimal(
        limit,
    )
}

pub open spec fn baseline_expired_message(expired: nat, base: nat) -> Seq<char> {
    "expired count "@ + decimal(expired) + " exceeds baseline of "@ + decimal(base)
        + " — ratchet violated"@
}

pub open spec fn baseline_expiring_soon_message(soon: nat, base: nat) -> Seq<char> {
    "expiring_soon count "@ + decimal(soon) + " exceeds baseline of "@ + decimal(base)
        + " — ratchet violated"@
}

/// The message if `cond`, else nothing.
pub open spec fn when(cond: bool, m: Seq<char>) -> Seq<Seq<char>> {
    if cond {
        seq![m]
    } else {
        Seq::empty()
    }
}

/// Every ratchet violation of the counts `expired` and `soon`, in order:
/// the configured limits first, then the baseline.
pub open spec fn ratchet_violations(
    expired: nat,
    soon: nat,
    base: Option<(nat, nat)>,
    max_expired: Option<nat>,
    max_soon: Option<nat>,
) -> Seq<Seq<char>> {
    let a = match max_expired {
        Some(l) => when(expired > l, max_expired_message(expired, l)),
        None => Seq::empty(),
    };
    let b = match max_soon {
        Some(l) => when(soon > l, max_expiring_soon_message(soon, l)),
        None => Seq::empty(),
    };
    let c = match base {
        Some((e, s)) => when(expired > e, baseline_expired_message(expired, e)) + when(
            soon > s,
            baseline_expiring_soon_message(soon, s),
        ),
        None => Seq::empty(),
    };
    a + b + c
}

/// The ratchet check depends on nothing but its counts, baseline and
/// limits: two checks of the same values report the same violations. It
/// passes, reporting none, exactly when no count exceeds its limit or its
/// baseline count.
pub proof fn law_ratchet_check(
    expired: nat,
    soon: nat,
    base: Option<(nat, nat)>,
    max_expired: Option<nat>,
    max_soon: Option<nat>,
    first: Seq<Seq<char>>,
    second: Seq<Seq<char>>,
)
    requires
        first == ratchet_violations(expired, soon, base, max_expired, max_soon),
        second == ratchet_violations(expired, soon, base, max_expired, max_soon),
    ensures
        first == second,
        first.len() == 0 <==> {
            &&& max_expired matches Some(l) ==> expired <= l
            &&& max_soon matches Some(l) ==> soon <= l
            &&& base matches Some((e, s)) ==> expired <= e && soon <= s
        },
{
}

/// The counts of a baseline, if there is one.
pub open spec fn base_counts(b: Option<&Baseline>) -> Option<(nat, nat)> {
    match b {
        Some(x) => Some((x.expired as nat, x.expiring_soon as nat)),
        None => None,
    }
}

fn count_message(prefix: &str, n: usize, middle: &str, m: usize) -> (r: String)
    ensures
        r@ == prefix@ + decimal(n as nat) + middle@ + decimal(m as nat),
{
    let mut r = to_owned(prefix);
    push_decimal(&mut r, n as u128);
    append(&mut r, middle);
    push_decimal(&mut r, m as u128);
    r
}

/// Checks the counts against the configured limits and the baseline; all
/// violations are reported, none means the check passes.
pub fn check_ratchet(
    expired: usize,
    expiring_soon: usize,
    baseline: Option<&Baseline>,
    max_expired: Option<usize>,
    max_expiring_soon: Option<usize>,
) -> (r: Vec<String>)
    ensures
        views(r@) == ratchet_violations(
            expired as nat,
            expiring_soon as nat,
            base_counts(baseline),
            match max_expired {
                Some(l) => Some(l as nat),
                None => None,
            },
            match max_expiring_soon {
                Some(l) => Some(l as nat),
                None => None,
            },
        ),
{
    let mut v: Vec<String> = Vec::new();
    let ghost e = expired as nat;
    let ghost s = expiring_soon as nat;
    if let Some(limit) = max_expired {
        if expired > limit {
            v.push(
                count_message(
                    "expired count ",
                    expired,
                    " exceeds max_expired limit of ",
                    limit,
                ),
            );
        }
    }
    let ghost a = views(v@);
    if let Some(limit) = max_expiring_soon {
        if expiring_soon > limit {
            v.push(
                count_message(
                    "expiring_soon count ",
                    expiring_soon,
                    " exceeds max_expiring_soon limit of ",
                    limit,
                ),
            );
            assert(views(v@) =~= a + seq![max_expiring_soon_message(s, limit as nat)]);
        } else {
            assert(views(v@) =~= a + Seq::<Seq<char>>::empty());
        }
    } else {
        assert(views(v@) =~= a + Seq::<Seq<char>>::empty());
    }
    let ghost ab = views(v@);
    if let Some(b) = baseline {
        if expired > b.expired {
            let mut m = count_message("expired count ", expired, " exceeds baseline of ", b.expired);
            append(&mut m, " — ratchet violated");
            v.push(m);
        }
        let ghost abc = views(v@);
        if expiring_soon > b.expiring_soon {
            let mut m = count_message(
                "expiring_soon count ",
                expiring_soon,
                " exceeds baseline of ",
                b.expiring_soon,
            );
            append(&mut m, " — ratchet violated");
            v.push(m);
            assert(views(v@) =~= abc + seq![
                baseline_expiring_soon_message(s, b.expiring_soon as nat),
            ]);
        }
        assert(views(v@) =~= ab + (when(
            e > b.expired,
            baseline_expired_message(e, b.expired as nat),
        ) + when(s > b.expiring_soon, baseline_expiring_soon_message(s, b.expiring_soon as nat))));
    } else {
        assert(views(v@) =~= ab + Seq::<Seq<char>>::empty());
    }
    v
}

/// One row of the table comparing the current counts with the baseline.
#[derive(Debug)]
pub struct BaselineRow {
    /// The row's text.
    pub text: String,
    /// The current count exceeds the baseline's.
    pub exceeded: bool,
}

/// The row `label current [baseline]`: the label left-aligned in 16
/// columns, the current count right-aligned in 7, and, when there is a
/// baseline, two spaces and its count right-aligned in 8.
pub open spec fn row_text(label: Seq<char>, current: nat, base: Option<nat>) -> Seq<char> {
    padded_right(label, 16) + seq![' '] + padded_left(decimal(current), 7) + match base {
        Some(b) => "  "@ + padded_left(decimal(b), 8),
        None => Seq::empty(),
    }
}

fn row(label: &str, current: usize, base: Option<usize>) -> (r: BaselineRow)
    ensures
        r.text@ == row_text(
            label@,
            current as nat,
            match base {
                Some(b) => Some(b as nat),
                None => None,
            },
        ),
        r.exceeded == (base matches Some(b) && current > b),
{
    let mut t = String::new();
    push_padded_right(&mut t, label, 16);
    push_char(&mut t, ' ');
    let c = decimal_string(current as u128);
    push_padded_left(&mut t, c.as_str(), 7);
    let exceeded = match base {
        Some(b) => {
            append(&mut t, "  ");
            let bs = decimal_string(b as u128);
            push_padded_left(&mut t, bs.as_str(), 8);
            current > b
        },
        None => {
            assert(t@ =~= t@ + Seq::<char>::empty());
            false
        },
    };
    BaselineRow { text: t, exceeded }
}

/// The table that compares the current counts with the baseline, if any:
/// a header, then the `expired` and `expiring_soon` rows.
pub fn baseline_table(
    current_expired: usize,
    current_expiring_soon: usize,
    baseline: Option<&Baseline>,
) -> (r: (String, Vec<BaselineRow>))
    ensures
        r.0@ == match baseline {
            Some(_) => padded_left("current"@, 21) + "  "@ + padded_left("baseline"@, 8),
            None => padded_left("current"@, 21) + "  (no baseline saved)"@,
        },
        r.1@.len() == 2,
        r.1@[0].text@ == row_text(
            "expired"@,
            current_expired as nat,
            match baseline {
                Some(b) => Some(b.expired as nat),
                None => None,
            },
        ),
        r.1@[1].text@ == row_text(
            "expiring_soon"@,
            current_expiring_soon as nat,
            match baseline {
                Some(b) => Some(b.expiring_soon as nat),
                None => None,
            },
        ),
        r.1@[0].exceeded == (baseline matches Some(b) && current_expired > b.expired),
        r.1@[1].exceeded == (baseline matches Some(b) && current_expiring_soon > b.expiring_soon),
{
    let mut head = String::new();
    push_padded_left(&mut head, "current", 21);
    let (be, bs) = match baseline {
        Some(b) => {
            append(&mut head, "  ");
            push_padded_left(&mut head, "baseline", 8);
            (Some(b.expired), Some(b.expiring_soon))
        },
        None => {
            append(&mut head, "  (no baseline saved)");
            (None, None)
        },
    };
    let mut rows: Vec<BaselineRow> = Vec::new();
    rows.push(row("expired", current_expired, be));
    rows.push(row("expiring_soon", current_expiring_soon, bs));
    (head, rows)
}

/// The confirmation printed after saving a baseline.
pub fn saved_message(path: &str, expired: usize, expiring_soon: usize) -> (r: String)
    ensures
        r@ == "baseline saved to '"@ + path@ + "': expired="@ + decimal(expired as nat)
            + ", expiring_soon="@ + decimal(expiring_soon as nat),
{
    let mut r = to_owned("baseline saved to '");
    append(&mut r, path);
    append(&mut r, "': expired=");
    push_decimal(&mut r, expired as u128);
    append(&mut r, ", expiring_soon=");
    push_decimal(&mut r, expiring_soon as u128);
    r
}

} // verus!
