//! How sweep results and fuse lists are shown: terminal lines, GitHub
//! Actions workflow commands, and the values serialised as JSON.

use crate::annotation::{location_text, opt_text, status_name, Fuse, Status};
use crate::date::{formatted_ymd, Date};
use crate::scanner::{with_status, ScanResult};
use crate::style::{push_line, styled, StyledLine, Tint};
use crate::text::{append, ascii_lowercase, ascii_text, decimal, lowercased, padded_right, push_char, push_decimal, push_padded_right, push_signed_decimal, signed_decimal, std_to_lowercase, str_eq, to_owned};
use vstd::prelude::*;

verus! {

/// How results are shown.
#[derive(Clone, Copy, Debug, PartialEq, Eq, Structural)]
pub enum OutputFormat {
    /// Human-readable terminal output with colour.
    Terminal,
    /// Machine-readable JSON.
    Json,
    /// GitHub Actions workflow commands.
    GitHub,
    /// Comma-separated values.
    Csv,
    /// A fixed-width table.
    Table,
}

/// The format a lower-cased `--format` name selects.
pub open spec fn format_named(t: Seq<char>) -> Option<OutputFormat> {
    if t == "terminal"@ || t == "term"@ {
        Some(OutputFormat::Terminal)
    } else if t == "json"@ {
        Some(OutputFormat::Json)
    } else if t == "github"@ || t == "gh"@ {
        Some(OutputFormat::GitHub)
    } else {
        None
    }
}

/// The names of the output formats, in any case: `terminal` or `term`,
/// `json`, and `github` or `gh`; no other name selects a format.
pub proof fn law_format_names(s: Seq<char>)
    ensures
        ({
            let t = lowercased(s);
            &&& (t == seq!['t', 'e', 'r', 'm', 'i', 'n', 'a', 'l'] || t == seq!['t', 'e', 'r', 'm']) ==> format_named(t)
                == Some(OutputFormat::Terminal)
            &&& t == seq!['j', 's', 'o', 'n'] ==> format_named(t) == Some(OutputFormat::Json)
            &&& (t == seq!['g', 'i', 't', 'h', 'u', 'b'] || t == seq!['g', 'h']) ==> format_named(t) == Some(
                OutputFormat::GitHub,
            )
            &&& !(t == seq!['t', 'e', 'r', 'm', 'i', 'n', 'a', 'l'] || t == seq!['t', 'e', 'r', 'm'] || t == seq![
                'j',
                's',
                'o',
                'n',
            ] || t == seq!['g', 'i', 't', 'h', 'u', 'b'] || t == seq!['g', 'h']) ==> format_named(t) is None
        }),
{
    reveal_strlit("terminal");
    reveal_strlit("term");
    reveal_strlit("json");
    reveal_strlit("github");
    reveal_strlit("gh");
    assert("terminal"@ =~= seq!['t', 'e', 'r', 'm', 'i', 'n', 'a', 'l']);
    assert("term"@ =~= seq!['t', 'e', 'r', 'm']);
    assert("json"@ =~= seq!['j', 's', 'o', 'n']);
    assert("github"@ =~= seq!['g', 'i', 't', 'h', 'u', 'b']);
    assert("gh"@ =~= seq!['g', 'h']);
}

impl OutputFormat {
    /// The format named by `s`, compared in lower case: `terminal` or
    /// `term`, `json`, `github` or `gh`. For an ASCII name, lower case is
    /// ASCII lower case.
    pub fn parse_format(s: &str) -> (r: Option<OutputFormat>)
        ensures
            r == format_named(lowercased(s@)),
            ascii_text(s@) ==> r == format_named(ascii_lowercase(s@)),
    {
        let l = std_to_lowercase(s);
        let t = l.as_str();
        if str_eq(t, "terminal") || str_eq(t, "term") {
            Some(OutputFormat::Terminal)
        } else if str_eq(t, "json") {
            Some(OutputFormat::Json)
        } else if str_eq(t, "github") || str_eq(t, "gh") {
            Some(OutputFormat::GitHub)
        } else {
            None
        }
    }
}

// ───────────────────────── terminal lines ─────────────────────────

/// How far a fuse is from its date, as shown after its date.
pub open spec fn days_text(status: Status, delta: int) -> Seq<char> {
    match status {
        Status::Detonated => " ("@ + decimal(if delta < 0 { -delta } else { delta } as nat) + " days overdue)"@,
        Status::Ticking => " (in "@ + signed_decimal(delta) + " days)"@,
        Status::Inert => Seq::empty(),
    }
}

/// The owner column: ` [owner]` when explicit, ` [~author]` when blamed.
pub open spec fn owner_text(f: Fuse) -> Seq<char> {
    match f.owner {
        Some(o) => " ["@ + o@ + seq![']'],
        None => match f.blamed_owner {
            Some(b) => " [~"@ + b@ + seq![']'],
            None => Seq::empty(),
        },
    }
}

/// The status column, nine characters wide.
pub open spec fn status_label(s: Status) -> Seq<char> {
    match s {
        Status::Detonated => "DETONATED"@,
        Status::Ticking => "TICKING  "@,
        Status::Inert => "INERT    "@,
    }
}

/// The colour of a fuse's line.
pub open spec fn status_tint(s: Status) -> Tint {
    match s {
        Status::Detonated => Tint::RedBold,
        Status::Ticking => Tint::Yellow,
        Status::Inert => Tint::Dimmed,
    }
}

/// A fuse's terminal line seen from the day `today`.
pub open spec fn fuse_line_text(f: Fuse, today: int) -> Seq<char> {
    status_label(f.status) + seq![' '] + padded_right(location_text(f.file@, f.line as nat), 40) + "  "@
        + padded_right(f.tag@ + seq!['['] + formatted_ymd(f.date@ as i32) + seq![']'], 20)
        + days_text(f.status, f.date@ - today) + owner_text(f) + "  "@ + f.message@
}

/// A fuse's terminal line, coloured by its status.
pub fn fuse_terminal_line(f: &Fuse, today: &Date) -> (r: StyledLine)
    ensures
        r.lead@.len() == 0,
        r.tail@.len() == 0,
        r.text@ == fuse_line_text(*f, today@),
        r.tint == status_tint(f.status),
{
    let mut s = String::new();
    let (label, tint) = match f.status {
        Status::Detonated => ("DETONATED", Tint::RedBold),
        Status::Ticking => ("TICKING  ", Tint::Yellow),
        Status::Inert => ("INERT    ", Tint::Dimmed),
    };
    append(&mut s, label);
    push_char(&mut s, ' ');
    let loc = f.location();
    push_padded_right(&mut s, loc.as_str(), 40);
    append(&mut s, "  ");
    let mut td = to_owned(f.tag.as_str());
    push_char(&mut td, '[');
    let d = f.date_str();
    append(&mut td, d.as_str());
    push_char(&mut td, ']');
    push_padded_right(&mut s, td.as_str(), 20);
    let delta = f.days_from_today(today);
    match f.status {
        Status::Detonated => {
            append(&mut s, " (");
            let m: u128 = if delta < 0 { (0i128 - delta as i128) as u128 } else { delta as u128 };
            push_decimal(&mut s, m);
            append(&mut s, " days overdue)");
        },
        Status::Ticking => {
            append(&mut s, " (in ");
            push_signed_decimal(&mut s, delta);
            append(&mut s, " days)");
        },
        Status::Inert => {},
    }
    match &f.owner {
        Some(o) => {
            append(&mut s, " [");
            append(&mut s, o.as_str());
            push_char(&mut s, ']');
        },
        None => match &f.blamed_owner {
            Some(b) => {
                append(&mut s, " [~");
                append(&mut s, b.as_str());
                push_char(&mut s, ']');
            },
            None => {},
        },
    }
    append(&mut s, "  ");
    append(&mut s, f.message.as_str());
    proof {
        assert(s@ =~= fuse_line_text(*f, today@));
    }
    StyledLine { lead: String::new(), text: s, tint, tail: String::new() }
}

/// The closing summary of a sweep.
pub open spec fn summary_text(swept: nat, fs: Seq<Fuse>) -> Seq<char> {
    "Swept "@ + decimal(swept) + " file(s) · "@ + decimal(fs.len()) + " fuse(s) total · "@
        + decimal(with_status(fs, Status::Detonated).len()) + " detonated · "@
        + decimal(with_status(fs, Status::Ticking).len()) + " ticking · "@
        + decimal(with_status(fs, Status::Inert).len()) + " inert"@
}

/// The summary's colour: red when something detonated, yellow when
/// something ticks, green otherwise.
pub open spec fn summary_tint(fs: Seq<Fuse>) -> Tint {
    if with_status(fs, Status::Detonated).len() > 0 {
        Tint::RedBold
    } else if with_status(fs, Status::Ticking).len() > 0 {
        Tint::Yellow
    } else {
        Tint::Green
    }
}

/// The closing summary of a sweep, coloured by its worst fuse.
pub fn print_scan_summary(result: &ScanResult) -> (r: StyledLine)
    ensures
        r.lead@.len() == 0,
        r.tail@.len() == 0,
        r.text@ == summary_text(result.swept_files as nat, result.fuses@),
        r.tint == summary_tint(result.fuses@),
{
    let dv = result.expired();
    let tv = result.expiring_soon();
    let iv = result.ok();
    let d = dv.len();
    let t = tv.len();
    let i = iv.len();
    proof {
        assert(crate::scanner::referenced(dv@).len() == d);
        assert(crate::scanner::referenced(tv@).len() == t);
        assert(crate::scanner::referenced(iv@).len() == i);
    }
    let mut s = to_owned("Swept ");
    push_decimal(&mut s, result.swept_files as u128);
    append(&mut s, " file(s) · ");
    push_decimal(&mut s, result.total() as u128);
    append(&mut s, " fuse(s) total · ");
    push_decimal(&mut s, d as u128);
    append(&mut s, " detonated · ");
    push_decimal(&mut s, t as u128);
    append(&mut s, " ticking · ");
    push_decimal(&mut s, i as u128);
    append(&mut s, " inert");
    let tint = if d > 0 {
        Tint::RedBold
    } else if t > 0 {
        Tint::Yellow
    } else {
        Tint::Green
    };
    StyledLine { lead: String::new(), text: s, tint, tail: String::new() }
}

// ───────────────────────── GitHub Actions ─────────────────────────

/// The workflow command for a fuse seen from `today`: an error when
/// detonated, a warning when ticking, nothing when inert.
pub open spec fn github_text(f: Fuse, today: int) -> Option<Seq<char>> {
    let delta = f.date@ - today;
    let head = "file="@ + f.file@ + ",line="@ + decimal(f.line as nat) + "::"@ + f.tag@;
    match f.status {
        Status::Detonated => Some("::error "@ + head + " detonated on "@ + formatted_ymd(f.date@ as i32) + " ("@ + decimal(if delta < 0 { -delta } else { delta } as nat) + " days overdue): "@ + f.message@),
        Status::Ticking => Some("::warning "@ + head + " detonates on "@ + formatted_ymd(f.date@ as i32) + " (in "@ + signed_decimal(delta) + " days): "@ + f.message@),
        Status::Inert => None,
    }
}

/// The workflow command for a fuse, if it has one.
pub fn print_fuse_github(f: &Fuse, today: &Date) -> (r: Option<String>)
    ensures
        match (r, github_text(*f, today@)) {
            (Some(x), Some(y)) => x@ == y,
            (None, None) => true,
            _ => false,
        },
{
    let delta = f.days_from_today(today);
    let mut s = match f.status {
        Status::Detonated => to_owned("::error "),
        Status::Ticking => to_owned("::warning "),
        Status::Inert => {
            return None;
        },
    };
    append(&mut s, "file=");
    append(&mut s, f.file.as_str());
    append(&mut s, ",line=");
    push_decimal(&mut s, f.line as u128);
    append(&mut s, "::");
    append(&mut s, f.tag.as_str());
    let d = f.date_str();
    if f.status == Status::Detonated {
        append(&mut s, " detonated on ");
        append(&mut s, d.as_str());
        append(&mut s, " (");
        let m: u128 = if delta < 0 { (0i128 - delta as i128) as u128 } else { delta as u128 };
        push_decimal(&mut s, m);
        append(&mut s, " days overdue): ");
    } else {
        append(&mut s, " detonates on ");
        append(&mut s, d.as_str());
        append(&mut s, " (in ");
        push_signed_decimal(&mut s, delta);
        append(&mut s, " days): ");
    }
    append(&mut s, f.message.as_str());
    proof {
        let head = "file="@ + f.file@ + ",line="@ + decimal(f.line as nat) + "::"@ + f.tag@;
        if f.status == Status::Detonated {
            assert(s@ =~= "::error "@ + head + " detonated on "@ + formatted_ymd(f.date@ as i32) + " ("@ + decimal(if f.date@ - today@ < 0 { -(f.date@ - today@) } else { f.date@ - today@ } as nat) + " days overdue): "@ + f.message@);
        } else {
            assert(s@ =~= "::warning "@ + head + " detonates on "@ + formatted_ymd(f.date@ as i32) + " (in "@ + signed_decimal(f.date@ - today@) + " days): "@ + f.message@);
        }
    }
    Some(s)
}

/// The workflow commands for `fs`, in order, inert fuses giving none.
pub open spec fn github_lines(fs: Seq<Fuse>, today: int) -> Seq<Seq<char>>
    decreases fs.len(),
{
    if fs.len() == 0 {
        Seq::empty()
    } else {
        github_lines(fs.drop_last(), today) + match github_text(fs.last(), today) {
            Some(t) => seq![t],
            None => Seq::empty(),
        }
    }
}

/// The workflow commands for a list of fuses.
pub fn print_github_list(fs: &Vec<Fuse>, today: &Date) -> (r: Vec<String>)
    ensures
        r@.map_values(|s: String| s@) == github_lines(fs@, today@),
{
    let mut r: Vec<String> = Vec::new();
    let mut i: usize = 0;
    while i < fs.len()
        invariant
            i <= fs.len(),
            r@.map_values(|s: String| s@) == github_lines(fs@.take(i as int), today@),
        decreases fs.len() - i,
    {
        proof {
            assert(fs@.take(i + 1).drop_last() =~= fs@.take(i as int));
            assert(fs@.take(i + 1).last() == fs@[i as int]);
        }
        let ghost before = r@;
        match print_fuse_github(&fs[i], today) {
            Some(s) => {
                let ghost sv = s@;
                r.push(s);
                assert(r@.map_values(|s: String| s@) =~= before.map_values(|s: String| s@).push(sv));
            },
            None => {
                assert(github_lines(fs@.take(i + 1), today@) =~= github_lines(fs@.take(i as int), today@));
            },
        }
        i = i + 1;
    }
    assert(fs@.take(fs.len() as int) =~= fs@);
    r
}

// ───────────────────────── JSON values ─────────────────────────

/// A fuse as JSON shows it.
#[derive(Debug)]
pub struct JsonFuse {
    pub file: String,
    pub line: usize,
    pub tag: String,
    pub date: String,
    pub owner: Option<String>,
    /// Left out of the JSON when absent.
    pub blamed_owner: Option<String>,
    pub message: String,
    pub status: String,
}

/// A sweep as JSON shows it: counts, and the fuses by status.
#[derive(Debug)]
pub struct JsonOutput {
    pub swept_files: usize,
    pub total_fuses: usize,
    pub detonated: Vec<JsonFuse>,
    pub ticking: Vec<JsonFuse>,
    pub inert: Vec<JsonFuse>,
}

/// `j` shows the fuse `f`.
pub open spec fn shows(j: JsonFuse, f: Fuse) -> bool {
    &&& j.file@ == f.file@
    &&& j.line == f.line
    &&& j.tag@ == f.tag@
    &&& j.date@ == formatted_ymd(f.date@ as i32)
    &&& opt_text(j.owner) == opt_text(f.owner)
    &&& opt_text(j.blamed_owner) == opt_text(f.blamed_owner)
    &&& j.message@ == f.message@
    &&& j.status@ == status_name(f.status)
}

/// `js` shows `fs`, one for one.
pub open spec fn shows_all(js: Seq<JsonFuse>, fs: Seq<Fuse>) -> bool {
    js.len() == fs.len() && forall|i: int| 0 <= i < fs.len() ==> shows(#[trigger] js[i], fs[i])
}

impl JsonFuse {
    /// The JSON form of a fuse.
    pub fn from_fuse(f: &Fuse) -> (r: JsonFuse)
        ensures
            shows(r, *f),
    {
        JsonFuse {
            file: f.file.clone(),
            line: f.line,
            tag: f.tag.clone(),
            date: f.date_str(),
            owner: crate::annotation::copy_opt_string(&f.owner),
            blamed_owner: crate::annotation::copy_opt_string(&f.blamed_owner),
            message: f.message.clone(),
            status: to_owned(f.status.as_str()),
        }
    }
}

/// The JSON forms of a list of fuses.
pub fn json_list(fs: &Vec<Fuse>) -> (r: Vec<JsonFuse>)
    ensures
        shows_all(r@, fs@),
{
    let mut r: Vec<JsonFuse> = Vec::new();
    let mut i: usize = 0;
    while i < fs.len()
        invariant
            i <= fs.len(),
            r@.len() == i,
            forall|k: int| 0 <= k < i ==> shows(#[trigger] r@[k], fs@[k]),
        decreases fs.len() - i,
    {
        r.push(JsonFuse::from_fuse(&fs[i]));
        i = i + 1;
    }
    r
}

fn json_of_refs(fs: &Vec<&Fuse>) -> (r: Vec<JsonFuse>)
    ensures
        shows_all(r@, crate::scanner::referenced(fs@)),
{
    let mut r: Vec<JsonFuse> = Vec::new();
    let mut i: usize = 0;
    while i < fs.len()
        invariant
            i <= fs.len(),
            r@.len() == i,
            forall|k: int| 0 <= k < i ==> shows(#[trigger] r@[k], *fs@[k]),
        decreases fs.len() - i,
    {
        r.push(JsonFuse::from_fuse(fs[i]));
        i = i + 1;
    }
    r
}

/// The JSON form of a sweep.
pub fn json_output(result: &ScanResult) -> (r: JsonOutput)
    ensures
        r.swept_files == result.swept_files,
        r.total_fuses == result.fuses@.len(),
        shows_all(r.detonated@, with_status(result.fuses@, Status::Detonated)),
        shows_all(r.ticking@, with_status(result.fuses@, Status::Ticking)),
        shows_all(r.inert@, with_status(result.fuses@, Status::Inert)),
{
    let d = result.expired();
    let t = result.expiring_soon();
    let n = result.ok();
    JsonOutput {
        swept_files: result.swept_files,
        total_fuses: result.total(),
        detonated: json_of_refs(&d),
        ticking: json_of_refs(&t),
        inert: json_of_refs(&n),
    }
}

// ───────────────────────── dispatch ─────────────────────────

/// What a sweep shows.
#[derive(Debug)]
pub enum ScanOutput {
    /// A line per fuse and a blank line on standard output, then the
    /// summary on standard error.
    Terminal { lines: Vec<StyledLine>, summary: StyledLine },
    Json(JsonOutput),
    GitHub(Vec<String>),
}

/// The terminal lines of `fs` seen from `today`, each coloured by status.
pub open spec fn fuse_lines_text(fs: Seq<Fuse>, today: int) -> Seq<(Seq<char>, Seq<char>, Tint, Seq<char>)> {
    fs.map_values(|f: Fuse| (Seq::<char>::empty(), fuse_line_text(f, today), status_tint(f.status), Seq::<char>::empty()))
}

fn fuse_lines(fs: &Vec<Fuse>, today: &Date) -> (r: Vec<StyledLine>)
    ensures
        styled(r@) == fuse_lines_text(fs@, today@),
{
    let mut r: Vec<StyledLine> = Vec::new();
    let mut i: usize = 0;
    while i < fs.len()
        invariant
            i <= fs.len(),
            styled(r@) == fuse_lines_text(fs@.take(i as int), today@),
        decreases fs.len() - i,
    {
        let ghost before = r@;
        let l = fuse_terminal_line(&fs[i], today);
        assert(l.lead@ =~= Seq::<char>::empty());
        assert(l.tail@ =~= Seq::<char>::empty());
        r.push(l);
        proof {
            let f = fs@[i as int];
            assert(styled(r@) =~= styled(before).push((Seq::<char>::empty(), fuse_line_text(f, today@), status_tint(f.status), Seq::<char>::empty())));
            assert(fs@.take(i + 1) =~= fs@.take(i as int).push(f));
        }
        i = i + 1;
    }
    assert(fs@.take(fs.len() as int) =~= fs@);
    r
}

/// What a sweep shows in `format`: the terminal lines (also for CSV and
/// table), the JSON value, or the workflow commands.
pub fn print_scan_result(result: &ScanResult, format: OutputFormat, today: &Date) -> (r: ScanOutput)
    ensures
        match r {
            ScanOutput::Terminal { lines, summary } => (format is Terminal || format is Csv || format is Table)
                && styled(lines@) == fuse_lines_text(result.fuses@, today@).push((Seq::empty(), Seq::empty(), Tint::Plain, Seq::empty()))
                && summary.text@ == summary_text(result.swept_files as nat, result.fuses@)
                && summary.tint == summary_tint(result.fuses@),
            ScanOutput::Json(j) => format is Json && j.swept_files == result.swept_files
                && j.total_fuses == result.fuses@.len()
                && shows_all(j.detonated@, with_status(result.fuses@, Status::Detonated))
                && shows_all(j.ticking@, with_status(result.fuses@, Status::Ticking))
                && shows_all(j.inert@, with_status(result.fuses@, Status::Inert)),
            ScanOutput::GitHub(v) => format is GitHub && v@.map_values(|s: String| s@) == github_lines(result.fuses@, today@),
        },
{
    match format {
        OutputFormat::Json => ScanOutput::Json(json_output(result)),
        OutputFormat::GitHub => ScanOutput::GitHub(print_github_list(&result.fuses, today)),
        _ => {
            let mut lines = fuse_lines(&result.fuses, today);
            push_line(&mut lines, String::new(), Tint::Plain);
            ScanOutput::Terminal { lines, summary: print_scan_summary(result) }
        },
    }
}

/// What a fuse list shows.
#[derive(Debug)]
pub enum ListOutput {
    /// A line per fuse and a blank line on standard output, then the count
    /// on standard error.
    Terminal { lines: Vec<StyledLine>, footer: String },
    Json(Vec<JsonFuse>),
    GitHub(Vec<String>),
}

/// What a fuse list shows in `format`: the terminal lines and the count
/// `N fuse(s) listed` (also for CSV and table), the JSON values, or the
/// workflow commands.
pub fn print_list(fs: &Vec<Fuse>, format: OutputFormat, today: &Date) -> (r: ListOutput)
    ensures
        match r {
            ListOutput::Terminal { lines, footer } => (format is Terminal || format is Csv || format is Table)
                && styled(lines@) == fuse_lines_text(fs@, today@).push((Seq::empty(), Seq::empty(), Tint::Plain, Seq::empty()))
                && footer@ == decimal(fs@.len()) + " fuse(s) listed"@,
            ListOutput::Json(j) => format is Json && shows_all(j@, fs@),
            ListOutput::GitHub(v) => format is GitHub && v@.map_values(|s: String| s@) == github_lines(fs@, today@),
        },
{
    match format {
        OutputFormat::Json => ListOutput::Json(json_list(fs)),
        OutputFormat::GitHub => ListOutput::GitHub(print_github_list(fs, today)),
        _ => {
            let mut lines = fuse_lines(fs, today);
            push_line(&mut lines, String::new(), Tint::Plain);
            let mut footer = String::new();
            push_decimal(&mut footer, fs.len() as u128);
            append(&mut footer, " fuse(s) listed");
            ListOutput::Terminal { lines, footer }
        },
    }
}

} // verus!
