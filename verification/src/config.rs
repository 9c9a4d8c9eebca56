//! Configuration: the on-disk settings, their defaults, and how command-line
//! overrides merge into them.

use crate::error::{duration_days, parse_duration_days, Error, Result};
use crate::text::{append, eq_ignore_ascii_case, eq_ignore_ascii_case_str, join, join_strings, to_owned, views};
use vstd::prelude::*;

verus! {

/// The structure of `.timebomb.toml` on disk.
#[derive(Debug)]
pub struct ConfigFile {
    /// Tags to scan for, each a literal word matched ignoring case (not a
    /// regular expression).
    pub triggers: Option<Vec<String>>,
    /// Days before expiry in which a fuse is ticking.
    pub fuse_days: Option<u32>,
    /// Glob patterns excluded from scanning.
    pub exclude: Option<Vec<String>>,
    /// File extensions to scan; empty scans every text file.
    pub extensions: Option<Vec<String>>,
    /// Ratchet: fail if the number of detonated fuses exceeds this.
    pub max_detonated: Option<usize>,
    /// Ratchet: fail if the number of ticking fuses exceeds this.
    pub max_ticking: Option<usize>,
}

/// Fully-resolved configuration after merging the file with CLI overrides.
#[derive(Debug)]
pub struct Config {
    /// The tags that open a fuse. Each is a literal word, matched ignoring
    /// case; its characters have no pattern meaning.
    pub triggers: Vec<String>,
    pub fuse_days: u32,
    pub exclude_patterns: Vec<String>,
    pub extensions: Vec<String>,
    /// Whether ticking fuses also fail a sweep.
    pub fail_on_ticking: bool,
    /// When present, only files at these relative paths are scanned.
    pub diff_files: Option<Vec<String>>,
    pub max_detonated: Option<usize>,
    pub max_ticking: Option<usize>,
}

pub open spec fn default_trigger_names() -> Seq<Seq<char>> {
    seq![
        "TODO"@,
        "FIXME"@,
        "HACK"@,
        "TEMP"@,
        "REMOVEME"@,
        "DEBT"@,
        "STOPSHIP"@,
        "WORKAROUND"@,
        "DEPRECATED"@,
        "BUG"@,
    ]
}

pub open spec fn default_exclude_patterns() -> Seq<Seq<char>> {
    seq!["vendor/**"@, "node_modules/**"@, "*.min.js"@, ".git/**"@]
}

pub open spec fn default_extension_names() -> Seq<Seq<char>> {
    seq![
        "rs"@,
        "go"@,
        "ts"@,
        "js"@,
        "py"@,
        "rb"@,
        "java"@,
        "cs"@,
        "fs"@,
        "hs"@,
        "php"@,
        "clj"@,
        "lisp"@,
        "rkt"@,
        "ex"@,
        "erl"@,
        "c"@,
        "cpp"@,
        "d"@,
        "swift"@,
        "ml"@,
        "lua"@,
        "dart"@,
        "kt"@,
        "sql"@,
        "tf"@,
        "yaml"@,
        "yml"@,
    ]
}

fn strings_of(names: &[&str]) -> (r: Vec<String>)
    ensures
        views(r@) == names@.map_values(|s: &str| s@),
{
    let mut r: Vec<String> = Vec::new();
    let mut i: usize = 0;
    while i < names.len()
        invariant
            i <= names@.len(),
            views(r@) == names@.take(i as int).map_values(|s: &str| s@),
        decreases names.len() - i,
    {
        r.push(to_owned(names[i]));
        proof {
            assert(names@.take(i + 1).map_values(|s: &str| s@) =~= names@.take(i as int).map_values(
                |s: &str| s@,
            ).push(names@[i as int]@));
            assert(views(r@) =~= views(r@.drop_last()).push(r@.last()@));
        }
        i = i + 1;
    }
    assert(names@.take(names.len() as int) =~= names@);
    r
}

/// The built-in trigger tags.
pub fn default_triggers() -> (r: Vec<String>)
    ensures
        views(r@) == default_trigger_names(),
{
    let names = [
        "TODO",
        "FIXME",
        "HACK",
        "TEMP",
        "REMOVEME",
        "DEBT",
        "STOPSHIP",
        "WORKAROUND",
        "DEPRECATED",
        "BUG",
    ];
    let r = strings_of(&names);
    assert(views(r@) =~= default_trigger_names());
    r
}

/// The built-in exclusion globs.
pub fn default_excludes() -> (r: Vec<String>)
    ensures
        views(r@) == default_exclude_patterns(),
{
    let names = ["vendor/**", "node_modules/**", "*.min.js", ".git/**"];
    let r = strings_of(&names);
    assert(views(r@) =~= default_exclude_patterns());
    r
}

/// The built-in scanned extensions.
pub fn default_extensions() -> (r: Vec<String>)
    ensures
        views(r@) == default_extension_names(),
{
    let names = [
        "rs",
        "go",
        "ts",
        "js",
        "py",
        "rb",
        "java",
        "cs",
        "fs",
        "hs",
        "php",
        "clj",
        "lisp",
        "rkt",
        "ex",
        "erl",
        "c",
        "cpp",
        "d",
        "swift",
        "ml",
        "lua",
        "dart",
        "kt",
        "sql",
        "tf",
        "yaml",
        "yml",
    ];
    let r = strings_of(&names);
    assert(views(r@) =~= default_extension_names());
    r
}

impl Default for Config {
    fn default() -> (r: Config)
        ensures
            views(r.triggers@) == default_trigger_names(),
            r.fuse_days == 0,
            views(r.exclude_patterns@) == default_exclude_patterns(),
            views(r.extensions@) == default_extension_names(),
            !r.fail_on_ticking,
            r.diff_files is None,
            r.max_detonated is None,
            r.max_ticking is None,
    {
        Config {
            triggers: default_triggers(),
            fuse_days: 0,
            exclude_patterns: default_excludes(),
            extensions: default_extensions(),
            fail_on_ticking: false,
            diff_files: None,
            max_detonated: None,
            max_ticking: None,
        }
    }
}

/// CLI-level overrides applied on top of a configuration.
#[derive(Debug)]
pub struct CliOverrides {
    /// `--fuse 30d`
    pub fuse: Option<String>,
    /// `--fail-on-ticking`
    pub fail_on_ticking: bool,
}

impl Default for CliOverrides {
    fn default() -> (r: CliOverrides)
        ensures
            r.fuse is None,
            !r.fail_on_ticking,
    {
        CliOverrides { fuse: None, fail_on_ticking: false }
    }
}

impl CliOverrides {
    pub fn new(fuse: Option<String>, fail_on_ticking: bool) -> (r: CliOverrides)
        ensures
            r.fuse == fuse,
            r.fail_on_ticking == fail_on_ticking,
    {
        CliOverrides { fuse, fail_on_ticking }
    }
}

/// The setting of the file if it names one, else the default.
pub open spec fn list_setting(from_file: Option<Vec<String>>, default: Seq<Seq<char>>) -> Seq<
    Seq<char>,
> {
    match from_file {
        Some(v) => views(v@),
        None => default,
    }
}

pub open spec fn file_triggers(f: Option<ConfigFile>) -> Option<Vec<String>> {
    match f {
        Some(c) => c.triggers,
        None => None,
    }
}

pub open spec fn file_excludes(f: Option<ConfigFile>) -> Option<Vec<String>> {
    match f {
        Some(c) => c.exclude,
        None => None,
    }
}

pub open spec fn file_extensions(f: Option<ConfigFile>) -> Option<Vec<String>> {
    match f {
        Some(c) => c.extensions,
        None => None,
    }
}

/// `r` is what merging `file_cfg` with `overrides` gives: each setting from
/// the file or else its default, the fuse window overridden by `--fuse`,
/// and an error exactly when `--fuse` does not parse.
pub open spec fn merged(
    file_cfg: Option<ConfigFile>,
    overrides: CliOverrides,
    r: std::result::Result<Config, Error>,
) -> bool {
    let fuse_override = match overrides.fuse {
        Some(w) => Some(duration_days(w@)),
        None => None,
    };
    match r {
        Ok(c) => {
            &&& (fuse_override matches Some(p) ==> p is Ok)
            &&& views(c.triggers@) == list_setting(
                file_triggers(file_cfg),
                default_trigger_names(),
            )
            &&& views(c.exclude_patterns@) == list_setting(
                file_excludes(file_cfg),
                default_exclude_patterns(),
            )
            &&& views(c.extensions@) == list_setting(
                file_extensions(file_cfg),
                default_extension_names(),
            )
            &&& c.fuse_days == match fuse_override {
                Some(Ok(d)) => d,
                _ => match file_cfg {
                    Some(f) => match f.fuse_days {
                        Some(d) => d,
                        None => 0,
                    },
                    None => 0,
                },
            }
            &&& c.fail_on_ticking == overrides.fail_on_ticking
            &&& c.diff_files is None
            &&& c.max_detonated == match file_cfg {
                Some(f) => f.max_detonated,
                None => None,
            }
            &&& c.max_ticking == match file_cfg {
                Some(f) => f.max_ticking,
                None => None,
            }
        },
        Err(e) => fuse_override matches Some(Err(m)) && e.detail() == m,
    }
}

fn list_or_default(v: Option<Vec<String>>, default: Vec<String>) -> (r: Vec<String>)
    ensures
        r == match v {
            Some(x) => x,
            None => default,
        },
{
    match v {
        Some(x) => x,
        None => default,
    }
}

/// Merges the file settings (if a file was read) with the CLI overrides.
pub fn merge_config(file_cfg: Option<ConfigFile>, overrides: &CliOverrides) -> (r: Result<Config>)
    ensures
        merged(file_cfg, *overrides, r),
{
    let ghost original = file_cfg;
    let (triggers, fuse_days, exclude, extensions, max_detonated, max_ticking) = match file_cfg {
        Some(f) => (f.triggers, f.fuse_days, f.exclude, f.extensions, f.max_detonated, f.max_ticking),
        None => (None, None, None, None, None, None),
    };
    let triggers = list_or_default(triggers, default_triggers());
    let exclude_patterns = list_or_default(exclude, default_excludes());
    let extensions = list_or_default(extensions, default_extensions());
    let mut fuse_days = match fuse_days {
        Some(d) => d,
        None => 0,
    };
    match &overrides.fuse {
        Some(w) => {
            match parse_duration_days(w.as_str()) {
                Ok(d) => {
                    fuse_days = d;
                },
                Err(e) => {
                    return Err(e);
                },
            }
        },
        None => {},
    }
    Ok(
        Config {
            triggers,
            fuse_days,
            exclude_patterns,
            extensions,
            fail_on_ticking: overrides.fail_on_ticking,
            diff_files: None,
            max_detonated,
            max_ticking,
        },
    )
}

/// Resolves the configuration from the settings file (when one was read)
/// and the CLI overrides.
pub fn load_config(file_cfg: Option<ConfigFile>, overrides: &CliOverrides) -> (r: Result<Config>)
    ensures
        merged(file_cfg, *overrides, r),
{
    merge_config(file_cfg, overrides)
}

/// The extension that `std::path::Path::extension` gives for path `p`.
pub uninterp spec fn path_extension(p: Seq<char>) -> Option<Seq<char>>;

/// Calls `std::path::Path::extension` on `p`. Claimed: the result is the
/// named extension.
#[verifier::external_body]
pub(crate) fn std_path_extension(p: &str) -> (r: Option<String>)
    ensures
        match r {
            Some(e) => path_extension(p@) == Some(e@),
            None => path_extension(p@) is None,
        },
{
    match std::path::Path::new(p).extension() {
        Some(e) => Some(e.to_string_lossy().into_owned()),
        None => None,
    }
}

/// Whether a file at path `p` is scanned under the extension list `exts`.
pub open spec fn extension_allowed_by(exts: Seq<Seq<char>>, p: Seq<char>) -> bool {
    exts.len() == 0 || match path_extension(p) {
        Some(e) => exists|i: int| 0 <= i < exts.len() && eq_ignore_ascii_case(#[trigger] exts[i], e),
        None => false,
    }
}

/// The fuse grammar written as a regular expression over the triggers,
/// for display. The scanner does not compile it: it reads the grammar by
/// hand, with the triggers as literal words.
pub open spec fn fuse_pattern_text(triggers: Seq<Seq<char>>) -> Seq<char> {
    "(?i)("@ + join(triggers, "|"@) + ")\\[(\\d{4}-\\d{2}-\\d{2})\\](\\[([^\\]]+)\\])?:\\s*(.+)"@
}

// ───────────────────────── globs ─────────────────────────

/// The longest glob text, in characters, that the library hands to
/// `globset`: its literal matchers number their states in 31 bits and
/// unwrap their construction, so a literal of about 2^31 bytes panics. A
/// text under this many characters has fewer than 2^30 bytes.
pub const GLOB_CHARS_LIMIT: usize = 0x1000_0000;

/// The characters of all the texts of `ps` together.
pub open spec fn chars_total(ps: Seq<Seq<char>>) -> int
    decreases ps.len(),
{
    if ps.len() == 0 {
        0
    } else {
        chars_total(ps.drop_last()) + ps.last().len()
    }
}

pub proof fn lemma_chars_total_bounds(ps: Seq<Seq<char>>, i: int)
    requires
        0 <= i < ps.len(),
    ensures
        ps[i].len() <= chars_total(ps),
        chars_total(ps) >= 0,
    decreases ps.len(),
{
    if i < ps.len() - 1 {
        lemma_chars_total_bounds(ps.drop_last(), i);
        assert(ps.drop_last()[i] == ps[i]);
    } else if ps.len() > 1 {
        lemma_chars_total_bounds(ps.drop_last(), 0);
    } else {
        assert(ps.drop_last().len() == 0);
        assert(chars_total(ps.drop_last()) == 0);
    }
}

/// Whether the glob `pattern`, built by `globset` into a set of that one
/// glob, matches the path `path`: `None` when `Glob::new` refuses the
/// pattern or the set cannot be built.
pub uninterp spec fn glob_match(pattern: Seq<char>, path: Seq<char>) -> Option<bool>;

/// What `globset::Glob::new` says of `pattern`: `None` when it compiles,
/// else the text of its error.
pub uninterp spec fn glob_error(pattern: Seq<char>) -> Option<Seq<char>>;

/// Calls `globset::Glob::new(pattern)`, builds a `GlobSet` of that glob
/// with `GlobSetBuilder::build`, and asks its `is_match` on `path`.
/// Claimed: the result is the named match result, and it is `None` when
/// `Glob::new` refuses the pattern. Both steps report failure as an error,
/// the set's regex size limit included; `requires` keeps the pattern under
/// the size at which the set's literal matcher would panic.
#[verifier::external_body]
pub(crate) fn globset_match(pattern: &str, path: &str) -> (r: Option<bool>)
    requires
        pattern@.len() < GLOB_CHARS_LIMIT,
    ensures
        r == glob_match(pattern@, path@),
        glob_error(pattern@) is Some ==> r is None,
{
    match globset::Glob::new(pattern) {
        Ok(g) => match globset::GlobSetBuilder::new().add(g).build() {
            Ok(set) => Some(set.is_match(path)),
            Err(_) => None,
        },
        Err(_) => None,
    }
}

/// What `globset::GlobSetBuilder::build` says of the set of the globs
/// `ps`: `None` when it builds, else the text of its error.
pub uninterp spec fn glob_set_error(ps: Seq<Seq<char>>) -> Option<Seq<char>>;

/// Adds each pattern of `ps`, as `globset::Glob::new` reads it, to a
/// `GlobSetBuilder` and calls `build`. Claimed: the result is the named
/// verdict, `None` when the set builds, else the error's text. Every
/// pattern is one that `Glob::new` accepts, and `requires` keeps their
/// total size under the one at which the set's literal matchers would
/// panic.
#[verifier::external_body]
fn globset_build(ps: &Vec<String>) -> (r: Option<String>)
    requires
        chars_total(views(ps@)) < GLOB_CHARS_LIMIT,
        forall|i: int| 0 <= i < ps@.len() ==> glob_error(#[trigger] ps@[i]@) is None,
    ensures
        match r {
            Some(m) => glob_set_error(views(ps@)) == Some(m@),
            None => glob_set_error(views(ps@)) is None,
        },
{
    let mut builder = globset::GlobSetBuilder::new();
    for p in ps {
        if let Ok(g) = globset::Glob::new(p) {
            builder.add(g);
        }
    }
    match builder.build() {
        Ok(_) => None,
        Err(e) => Some(e.to_string()),
    }
}

/// Calls `globset::Glob::new(pattern)`. Claimed: the result is the named
/// verdict, `None` when the pattern compiles, else the error's text.
#[verifier::external_body]
fn globset_error(pattern: &str) -> (r: Option<String>)
    ensures
        match r {
            Some(m) => glob_error(pattern@) == Some(m@),
            None => glob_error(pattern@) is None,
        },
{
    match globset::Glob::new(pattern) {
        Ok(_) => None,
        Err(e) => Some(e.to_string()),
    }
}

/// The last component that `std::path::Path::file_name` gives for `p`.
pub uninterp spec fn path_file_name(p: Seq<char>) -> Option<Seq<char>>;

/// Calls `std::path::Path::file_name` on `p`. Claimed: the result is the
/// named file name.
#[verifier::external_body]
fn std_path_file_name(p: &str) -> (r: Option<String>)
    ensures
        match r {
            Some(n) => path_file_name(p@) == Some(n@),
            None => path_file_name(p@) is None,
        },
{
    match std::path::Path::new(p).file_name() {
        Some(n) => Some(n.to_string_lossy().into_owned()),
        None => None,
    }
}

/// The exclude patterns of a configuration, each a glob that compiles.
#[derive(Debug)]
pub struct ExcludeSet {
    patterns: Vec<String>,
}

impl View for ExcludeSet {
    type V = Seq<Seq<char>>;

    /// The patterns, in the order of the configuration.
    closed spec fn view(&self) -> Seq<Seq<char>> {
        views(self.patterns@)
    }
}

impl ExcludeSet {
    #[verifier::type_invariant]
    closed spec fn inv(self) -> bool {
        &&& forall|i: int| 0 <= i < self.patterns@.len() ==> glob_error(#[trigger] self.patterns@[i]@) is None
        &&& chars_total(views(self.patterns@)) < GLOB_CHARS_LIMIT
        &&& glob_set_error(views(self.patterns@)) is None
    }
}

/// The first pattern of `ps` that globset refuses, with its error's text.
pub open spec fn first_bad_glob(ps: Seq<Seq<char>>) -> Option<(Seq<char>, Seq<char>)>
    decreases ps.len(),
{
    if ps.len() == 0 {
        None
    } else {
        match glob_error(ps[0]) {
            Some(m) => Some((ps[0], m)),
            None => first_bad_glob(ps.skip(1)),
        }
    }
}

/// Some pattern of `ps` matches the path `path` or its file name.
pub open spec fn excluded_by(ps: Seq<Seq<char>>, path: Seq<char>) -> bool {
    exists|i: int|
        0 <= i < ps.len() && (glob_match(#[trigger] ps[i], path) == Some(true) || (path_file_name(
            path,
        ) matches Some(n) && glob_match(ps[i], n) == Some(true)))
}

proof fn lemma_first_bad_glob_none(ps: Seq<Seq<char>>, k: int)
    requires
        0 <= k <= ps.len(),
        forall|i: int| 0 <= i < k ==> glob_error(#[trigger] ps[i]) is None,
    ensures
        first_bad_glob(ps) == first_bad_glob(ps.skip(k)),
    decreases k,
{
    if k > 0 {
        assert(glob_error(ps[0]) is None);
        let t = ps.skip(1);
        assert forall|i: int| 0 <= i < k - 1 implies glob_error(#[trigger] t[i]) is None by {
            assert(t[i] == ps[i + 1]);
        }
        lemma_first_bad_glob_none(t, k - 1);
        assert(t.skip(k - 1) =~= ps.skip(k));
    } else {
        assert(ps.skip(0) =~= ps);
    }
}

impl Config {
    /// Whether the file at `path` has an allowed extension (compared
    /// ignoring ASCII case). An empty extension list allows every file.
    pub fn extension_allowed(&self, path: &str) -> (r: bool)
        ensures
            r == extension_allowed_by(views(self.extensions@), path@),
    {
        if self.extensions.len() == 0 {
            return true;
        }
        match std_path_extension(path) {
            Some(ext) => {
                let mut i: usize = 0;
                while i < self.extensions.len()
                    invariant
                        i <= self.extensions@.len(),
                        path_extension(path@) == Some(ext@),
                        forall|j: int|
                            0 <= j < i ==> !eq_ignore_ascii_case(
                                #[trigger] views(self.extensions@)[j],
                                ext@,
                            ),
                    decreases self.extensions.len() - i,
                {
                    if eq_ignore_ascii_case_str(self.extensions[i].as_str(), ext.as_str()) {
                        assert(views(self.extensions@)[i as int] == self.extensions@[i as int]@);
                        return true;
                    }
                    assert(views(self.extensions@)[i as int] == self.extensions@[i as int]@);
                    i = i + 1;
                }
                false
            },
            None => false,
        }
    }

    /// The exclude patterns, checked: each must be a glob that compiles,
    /// the first that does not being refused with globset's reason; then
    /// the set of them all must build, else it is refused as `(combined)`.
    pub fn build_exclude_globset(&self) -> (r: Result<ExcludeSet>)
        requires
            chars_total(views(self.exclude_patterns@)) < GLOB_CHARS_LIMIT,
        ensures
            match first_bad_glob(views(self.exclude_patterns@)) {
                None => match glob_set_error(views(self.exclude_patterns@)) {
                    None => r matches Ok(s) && s@ == views(self.exclude_patterns@),
                    Some(m) => r matches Err(Error::InvalidGlob { pattern, detail }) && pattern@ == "(combined)"@
                        && detail@ == m,
                },
                Some((p, m)) => r matches Err(Error::InvalidGlob { pattern, detail }) && pattern@ == p
                    && detail@ == m,
            },
    {
        let ghost ps = views(self.exclude_patterns@);
        let mut patterns: Vec<String> = Vec::new();
        let mut i: usize = 0;
        while i < self.exclude_patterns.len()
            invariant
                i <= self.exclude_patterns@.len(),
                ps == views(self.exclude_patterns@),
                views(patterns@) == ps.take(i as int),
                forall|j: int| 0 <= j < i ==> glob_error(#[trigger] ps[j]) is None,
            decreases self.exclude_patterns.len() - i,
        {
            let p = &self.exclude_patterns[i];
            assert(ps[i as int] == p@);
            match globset_error(p.as_str()) {
                Some(m) => {
                    proof {
                        lemma_first_bad_glob_none(ps, i as int);
                        assert(ps.skip(i as int)[0] == ps[i as int]);
                    }
                    return Err(Error::InvalidGlob { pattern: p.clone(), detail: m });
                },
                None => {},
            }
            patterns.push(p.clone());
            proof {
                assert(views(patterns@) =~= views(patterns@.drop_last()).push(patterns@.last()@));
                assert(ps.take(i + 1) =~= ps.take(i as int).push(ps[i as int]));
            }
            i = i + 1;
        }
        proof {
            lemma_first_bad_glob_none(ps, ps.len() as int);
            assert(ps.skip(ps.len() as int) =~= Seq::<Seq<char>>::empty());
            assert(ps.take(ps.len() as int) =~= ps);
            assert forall|j: int| 0 <= j < patterns@.len() implies glob_error(#[trigger] patterns@[j]@) is None by {
                assert(patterns@[j]@ == views(patterns@)[j]);
            }
        }
        match globset_build(&patterns) {
            Some(m) => {
                proof {
                    reveal_strlit("(combined)");
                }
                Err(Error::InvalidGlob { pattern: to_owned("(combined)"), detail: m })
            },
            None => Ok(ExcludeSet { patterns }),
        }
    }

    /// Whether the file at `path` (relative to the scan root) is excluded:
    /// some pattern of `set` matches the whole path or its file name, so
    /// that `*.min.js` also catches nested files.
    pub fn is_excluded(&self, path: &str, set: &ExcludeSet) -> (r: bool)
        ensures
            r == excluded_by(set@, path@),
    {
        proof {
            use_type_invariant(set);
        }
        let name = std_path_file_name(path);
        let mut i: usize = 0;
        while i < set.patterns.len()
            invariant
                i <= set.patterns@.len(),
                chars_total(views(set.patterns@)) < GLOB_CHARS_LIMIT,
                match name {
                    Some(n) => path_file_name(path@) == Some(n@),
                    None => path_file_name(path@) is None,
                },
                forall|j: int|
                    0 <= j < i ==> !(glob_match(#[trigger] set@[j], path@) == Some(true) || (
                    path_file_name(path@) matches Some(n) && glob_match(set@[j], n) == Some(true))),
            decreases set.patterns.len() - i,
        {
            let p = set.patterns[i].as_str();
            assert(set@[i as int] == p@);
            proof {
                lemma_chars_total_bounds(views(set.patterns@), i as int);
            }
            if globset_match(p, path) == Some(true) {
                return true;
            }
            match &name {
                Some(n) => {
                    if globset_match(p, n.as_str()) == Some(true) {
                        return true;
                    }
                },
                None => {},
            }
            i = i + 1;
        }
        false
    }

    /// The fuse grammar as a regular expression, with the configured
    /// triggers as the tag alternatives.
    pub fn fuse_regex_pattern(&self) -> (r: String)
        ensures
            r@ == fuse_pattern_text(views(self.triggers@)),
    {
        let mut r = to_owned("(?i)(");
        let tags = join_strings(&self.triggers, "|");
        append(&mut r, tags.as_str());
        append(&mut r, ")\\[(\\d{4}-\\d{2}-\\d{2})\\](\\[([^\\]]+)\\])?:\\s*(.+)");
        assert(r@ =~= fuse_pattern_text(views(self.triggers@)));
        r
    }
}

} // verus!
