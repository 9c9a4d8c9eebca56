use timebomb::cli::FormatArg;
use timebomb::config::{default_triggers, load_config, merge_config, CliOverrides, Config, ConfigFile};
use timebomb::error::parse_duration_days;
use timebomb::output::OutputFormat;

fn file_cfg() -> ConfigFile {
    ConfigFile {
        triggers: None,
        fuse_days: None,
        exclude: None,
        extensions: None,
        max_detonated: None,
        max_ticking: None,
    }
}

fn strings(v: &[&str]) -> Vec<String> {
    v.iter().map(|s| s.to_string()).collect()
}

// -- format arguments ----------------------------------------------------------

#[test]
fn test_format_arg_to_output_format_terminal() {
    assert_eq!(FormatArg::Terminal.to_output_format(), OutputFormat::Terminal);
}

#[test]
fn test_format_arg_to_output_format_json() {
    assert_eq!(FormatArg::Json.to_output_format(), OutputFormat::Json);
}

#[test]
fn test_format_arg_to_output_format_github() {
    assert_eq!(FormatArg::Github.to_output_format(), OutputFormat::GitHub);
}

// -- durations -------------------------------------------------------------------

#[test]
fn test_parse_duration_days_valid() {
    assert_eq!(parse_duration_days("30d").unwrap(), 30);
    assert_eq!(parse_duration_days("0d").unwrap(), 0);
    assert_eq!(parse_duration_days("365d").unwrap(), 365);
    assert_eq!(parse_duration_days("  14d  ").unwrap(), 14);
}

#[test]
fn test_parse_duration_days_cap() {
    assert!(parse_duration_days("3650d").is_ok());
    assert!(parse_duration_days("3651d").is_err());
    assert!(parse_duration_days("9999999d").is_err());
}

#[test]
fn test_parse_duration_days_invalid() {
    assert!(parse_duration_days("30").is_err());
    assert!(parse_duration_days("abc").is_err());
    assert!(parse_duration_days("30h").is_err());
    assert!(parse_duration_days("").is_err());
    assert!(parse_duration_days("-5d").is_err());
}

#[test]
fn parse_duration_days_messages() {
    assert_eq!(
        parse_duration_days(" 3651d ").unwrap_err().message(),
        "Invalid argument: '3651d' exceeds the maximum allowed fuse window of 3650d (10 years)"
    );
    assert_eq!(
        parse_duration_days("30h").unwrap_err().message(),
        "Invalid argument: '30h' is not a valid duration — expected a format like '30d'"
    );
}

#[test]
fn test_error_display_invalid_argument() {
    let err = timebomb::error::Error::InvalidArgument("bad value".to_string());
    assert!(err.message().contains("bad value"));
}

// -- defaults and merging ------------------------------------------------------------

#[test]
fn test_default_config() {
    let cfg = Config::default();
    assert!(cfg.triggers.contains(&"TODO".to_string()));
    assert!(cfg.triggers.contains(&"FIXME".to_string()));
    assert_eq!(cfg.fuse_days, 0);
    assert!(!cfg.extensions.is_empty());
    assert!(!cfg.fail_on_ticking);
}

#[test]
fn test_merge_no_file_no_overrides() {
    let cfg = merge_config(None, &CliOverrides::default()).unwrap();
    assert_eq!(cfg.triggers, default_triggers());
    assert_eq!(cfg.fuse_days, 0);
}

#[test]
fn test_merge_file_overrides_triggers() {
    let f = ConfigFile {
        triggers: Some(strings(&["TODO", "FIXME"])),
        fuse_days: Some(7),
        ..file_cfg()
    };
    let cfg = merge_config(Some(f), &CliOverrides::default()).unwrap();
    assert_eq!(cfg.triggers, vec!["TODO", "FIXME"]);
    assert_eq!(cfg.fuse_days, 7);
    assert!(cfg.extensions.contains(&"rs".to_string()));
}

#[test]
fn test_cli_override_fuse() {
    let overrides = CliOverrides::new(Some("30d".to_string()), false);
    let cfg = merge_config(None, &overrides).unwrap();
    assert_eq!(cfg.fuse_days, 30);
}

#[test]
fn test_cli_override_fail_on_ticking() {
    let overrides = CliOverrides::new(None, true);
    let cfg = merge_config(None, &overrides).unwrap();
    assert!(cfg.fail_on_ticking);
}

#[test]
fn test_cli_fuse_overrides_file() {
    let f = ConfigFile { fuse_days: Some(7), ..file_cfg() };
    let overrides = CliOverrides::new(Some("30d".to_string()), false);
    let cfg = merge_config(Some(f), &overrides).unwrap();
    assert_eq!(cfg.fuse_days, 30);
}

#[test]
fn test_cli_invalid_duration() {
    let overrides = CliOverrides::new(Some("notadate".to_string()), false);
    let result = merge_config(None, &overrides);
    assert!(result.is_err());
}

#[test]
fn merge_keeps_ratchet_limits_from_file() {
    let f = ConfigFile {
        max_detonated: Some(3),
        max_ticking: Some(8),
        ..file_cfg()
    };
    let cfg = merge_config(Some(f), &CliOverrides::default()).unwrap();
    assert_eq!(cfg.max_detonated, Some(3));
    assert_eq!(cfg.max_ticking, Some(8));
    assert!(cfg.diff_files.is_none());
}

#[test]
fn test_default_config_fail_on_warn_is_false() {
    let cfg = Config::default();
    assert!(!cfg.fail_on_ticking);
}

#[test]
fn test_default_config_warn_within_days_is_zero() {
    let cfg = Config::default();
    assert_eq!(cfg.fuse_days, 0);
}

#[test]
fn test_default_config_extensions_non_empty() {
    let cfg = Config::default();
    assert!(!cfg.extensions.is_empty());
}

#[test]
fn test_default_config_extensions_contain_common_types() {
    let cfg = Config::default();
    for expected in &["rs", "go", "ts", "js", "py", "rb", "java", "sql", "yaml", "yml"] {
        assert!(cfg.extensions.contains(&expected.to_string()), "missing {}", expected);
    }
}

#[test]
fn test_default_config_excludes_contain_git() {
    let cfg = Config::default();
    assert!(cfg.exclude_patterns.iter().any(|p| p.contains(".git")));
}

#[test]
fn test_default_config_excludes_contain_node_modules() {
    let cfg = Config::default();
    assert!(cfg.exclude_patterns.iter().any(|p| p.contains("node_modules")));
}

#[test]
fn test_default_config_excludes_contain_vendor() {
    let cfg = Config::default();
    assert!(cfg.exclude_patterns.iter().any(|p| p.contains("vendor")));
}

#[test]
fn test_load_config_no_file_uses_defaults() {
    let cfg = load_config(None, &CliOverrides::default()).unwrap();
    assert_eq!(cfg.triggers, Config::default().triggers);
    assert_eq!(cfg.fuse_days, 0);
    assert!(!cfg.fail_on_ticking);
}

#[test]
fn test_load_config_partial_file_fills_rest_from_defaults() {
    let f = ConfigFile { fuse_days: Some(7), ..file_cfg() };
    let cfg = load_config(Some(f), &CliOverrides::default()).unwrap();
    assert_eq!(cfg.fuse_days, 7);
    assert!(cfg.triggers.contains(&"TODO".to_string()));
    assert!(cfg.extensions.contains(&"rs".to_string()));
}

#[test]
fn test_load_config_full_file() {
    let f = ConfigFile {
        triggers: Some(strings(&["TODO", "FIXME", "HACK"])),
        fuse_days: Some(14),
        exclude: Some(strings(&["vendor/**", "node_modules/**", ".git/**"])),
        extensions: Some(strings(&["rs", "go", "py"])),
        max_detonated: None,
        max_ticking: None,
    };
    let cfg = load_config(Some(f), &CliOverrides::default()).unwrap();
    assert_eq!(cfg.triggers, vec!["TODO", "FIXME", "HACK"]);
    assert_eq!(cfg.fuse_days, 14);
    assert!(cfg.exclude_patterns.contains(&"vendor/**".to_string()));
    assert_eq!(cfg.extensions, vec!["rs", "go", "py"]);
}

#[test]
fn test_cli_override_duration_without_d_suffix_returns_error() {
    let overrides = CliOverrides::new(Some("30".to_string()), false);
    assert!(load_config(None, &overrides).is_err());
}

#[test]
fn test_cli_override_zero_days_is_valid() {
    let overrides = CliOverrides::new(Some("0d".to_string()), false);
    assert_eq!(load_config(None, &overrides).unwrap().fuse_days, 0);
}

#[test]
fn test_cli_override_large_days_is_valid() {
    let overrides = CliOverrides::new(Some("365d".to_string()), false);
    assert_eq!(load_config(None, &overrides).unwrap().fuse_days, 365);
}

#[test]
fn test_cli_overrides_default() {
    let overrides = CliOverrides::default();
    assert!(overrides.fuse.is_none());
    assert!(!overrides.fail_on_ticking);
}

#[test]
fn test_cli_overrides_new_with_values() {
    let overrides = CliOverrides::new(Some("30d".to_string()), true);
    assert_eq!(overrides.fuse, Some("30d".to_string()));
    assert!(overrides.fail_on_ticking);
}

// -- extensions ----------------------------------------------------------------

#[test]
fn config_test_extension_allowed_rs() {
    let cfg = Config::default();
    assert!(cfg.extension_allowed("src/main.rs"));
    assert!(cfg.extension_allowed("src/lib.go"));
}

#[test]
fn test_extension_allowed_unknown() {
    let cfg = Config::default();
    assert!(!cfg.extension_allowed("file.xyz"));
    assert!(!cfg.extension_allowed("Makefile"));
}

#[test]
fn test_extension_empty_allows_all() {
    let cfg = Config { extensions: vec![], ..Config::default() };
    assert!(cfg.extension_allowed("anything.xyz"));
    assert!(cfg.extension_allowed("Makefile"));
}

#[test]
fn test_extension_allowed_sql() {
    let cfg = Config::default();
    assert!(cfg.extension_allowed("db/schema.sql"));
}

#[test]
fn test_extension_allowed_yaml() {
    let cfg = Config::default();
    assert!(cfg.extension_allowed(".github/workflows/ci.yml"));
    assert!(cfg.extension_allowed("config/app.yaml"));
}

#[test]
fn test_extension_not_allowed_no_extension() {
    let cfg = Config::default();
    assert!(!cfg.extension_allowed("Makefile"));
    assert!(!cfg.extension_allowed("Dockerfile"));
}

#[test]
fn test_extension_allowed_case_insensitive() {
    let cfg = Config::default();
    assert!(cfg.extension_allowed("MAIN.RS"));
}

// -- the fuse pattern ----------------------------------------------------------

#[test]
fn test_fuse_regex_pattern_contains_triggers() {
    let cfg = Config::default();
    let pattern = cfg.fuse_regex_pattern();
    for tag in &["TODO", "FIXME", "HACK", "TEMP", "REMOVEME", "DEBT", "STOPSHIP", "WORKAROUND", "DEPRECATED", "BUG"] {
        assert!(pattern.contains(tag), "missing {}", tag);
    }
}

#[test]
fn test_annotation_regex_pattern_custom_tags() {
    let cfg = Config {
        triggers: strings(&["MYTAGONE", "MYTAGTWO"]),
        ..Config::default()
    };
    let pattern = cfg.fuse_regex_pattern();
    assert!(pattern.contains("MYTAGONE"));
    assert!(pattern.contains("MYTAGTWO"));
    assert!(!pattern.contains("TODO"));
}

#[test]
fn test_annotation_regex_pattern_is_valid_regex() {
    let pattern = Config::default().fuse_regex_pattern();
    assert!(regex::Regex::new(&pattern).is_ok());
}

#[test]
fn test_annotation_regex_pattern_matches_basic_annotation() {
    let re = regex::Regex::new(&Config::default().fuse_regex_pattern()).unwrap();
    assert!(re.is_match("// TODO[2020-01-01]: some message"));
    assert!(re.is_match("# FIXME[2099-12-31]: future task"));
    assert!(re.is_match("-- HACK[2018-06-01]: sql comment"));
}

#[test]
fn test_annotation_regex_pattern_does_not_match_plain_todo() {
    let re = regex::Regex::new(&Config::default().fuse_regex_pattern()).unwrap();
    assert!(!re.is_match("// TODO: no date"));
    assert!(!re.is_match("// FIXME: no date bracket"));
    assert!(!re.is_match("// TODO [2020-01-01]: space before bracket"));
}

#[test]
fn test_annotation_regex_pattern_matches_with_owner() {
    let re = regex::Regex::new(&Config::default().fuse_regex_pattern()).unwrap();
    assert!(re.is_match("// TODO[2020-01-01][alice]: owned annotation"));
    assert!(re.is_match("# FIXME[2099-01-01][bob]: another owned"));
}

// -- exclusion -------------------------------------------------------------------

#[test]
fn test_is_excluded_git() {
    let cfg = Config::default();
    let gs = cfg.build_exclude_globset().unwrap();
    assert!(cfg.is_excluded(".git/config", &gs));
    assert!(cfg.is_excluded(".git/HEAD", &gs));
}

#[test]
fn config_test_is_excluded_node_modules() {
    let cfg = Config::default();
    let gs = cfg.build_exclude_globset().unwrap();
    assert!(cfg.is_excluded("node_modules/lodash/index.js", &gs));
}

#[test]
fn test_is_not_excluded_src() {
    let cfg = Config::default();
    let gs = cfg.build_exclude_globset().unwrap();
    assert!(!cfg.is_excluded("src/main.rs", &gs));
}

#[test]
fn test_build_exclude_globset_succeeds_with_defaults() {
    assert!(Config::default().build_exclude_globset().is_ok());
}

#[test]
fn test_build_exclude_globset_invalid_pattern_returns_error() {
    let cfg = Config { exclude_patterns: vec!["[invalid".to_string()], ..Config::default() };
    let result = cfg.build_exclude_globset();
    assert!(result.is_err(), "invalid glob pattern should return error");
    assert!(result.unwrap_err().message().starts_with("Invalid glob pattern '[invalid': "));
}

#[test]
fn test_is_excluded_git_dir() {
    let cfg = Config::default();
    let gs = cfg.build_exclude_globset().unwrap();
    assert!(cfg.is_excluded(".git/config", &gs));
    assert!(cfg.is_excluded(".git/objects/abc123", &gs));
}

#[test]
fn config_tests_test_is_excluded_node_modules() {
    let cfg = Config::default();
    let gs = cfg.build_exclude_globset().unwrap();
    assert!(cfg.is_excluded("node_modules/react/index.js", &gs));
}

#[test]
fn test_is_excluded_vendor() {
    let cfg = Config::default();
    let gs = cfg.build_exclude_globset().unwrap();
    assert!(cfg.is_excluded("vendor/github.com/some/pkg/file.go", &gs));
}

#[test]
fn test_is_excluded_min_js() {
    let cfg = Config::default();
    let gs = cfg.build_exclude_globset().unwrap();
    assert!(cfg.is_excluded("bundle.min.js", &gs));
    assert!(cfg.is_excluded("dist/app.min.js", &gs));
}

#[test]
fn test_is_not_excluded_src_file() {
    let cfg = Config::default();
    let gs = cfg.build_exclude_globset().unwrap();
    assert!(!cfg.is_excluded("src/main.rs", &gs));
    assert!(!cfg.is_excluded("src/lib/util.go", &gs));
}

#[test]
fn test_is_not_excluded_root_file() {
    let cfg = Config::default();
    let gs = cfg.build_exclude_globset().unwrap();
    assert!(!cfg.is_excluded("main.rs", &gs));
    assert!(!cfg.is_excluded("README.md", &gs));
}

// -- loading: the settings file as read --------------------------------------

#[test]
fn test_load_config_no_file_no_overrides_default_extensions() {
    let cfg = load_config(None, &CliOverrides::default()).unwrap();
    assert!(cfg.extensions.contains(&"rs".to_string()));
    assert!(cfg.extensions.contains(&"py".to_string()));
}

#[test]
fn test_load_config_reads_tags_from_file() {
    let f = ConfigFile { triggers: Some(strings(&["TODO", "FIXME"])), ..file_cfg() };
    let cfg = load_config(Some(f), &CliOverrides::default()).unwrap();
    assert_eq!(cfg.triggers, vec!["TODO", "FIXME"]);
}

#[test]
fn test_load_config_reads_warn_within_days() {
    let f = ConfigFile { fuse_days: Some(21), ..file_cfg() };
    let cfg = load_config(Some(f), &CliOverrides::default()).unwrap();
    assert_eq!(cfg.fuse_days, 21);
}

#[test]
fn test_load_config_reads_exclude_patterns() {
    let f = ConfigFile { exclude: Some(strings(&["build/**", "dist/**"])), ..file_cfg() };
    let cfg = load_config(Some(f), &CliOverrides::default()).unwrap();
    assert!(cfg.exclude_patterns.contains(&"build/**".to_string()));
    assert!(cfg.exclude_patterns.contains(&"dist/**".to_string()));
}

#[test]
fn test_load_config_reads_extensions() {
    let f = ConfigFile { extensions: Some(strings(&["rs", "toml"])), ..file_cfg() };
    let cfg = load_config(Some(f), &CliOverrides::default()).unwrap();
    assert_eq!(cfg.extensions, vec!["rs", "toml"]);
}

#[test]
fn test_load_config_empty_file_uses_defaults() {
    let cfg = load_config(Some(file_cfg()), &CliOverrides::default()).unwrap();
    assert_eq!(cfg.triggers, Config::default().triggers);
    assert_eq!(cfg.fuse_days, 0);
}

#[test]
fn test_cli_override_warn_within_overrides_file() {
    let f = ConfigFile { fuse_days: Some(7), ..file_cfg() };
    let overrides = CliOverrides::new(Some("30d".to_string()), false);
    let cfg = load_config(Some(f), &overrides).unwrap();
    assert_eq!(cfg.fuse_days, 30, "CLI --fuse should override config file");
}

#[test]
fn test_cli_override_warn_within_overrides_default() {
    let overrides = CliOverrides::new(Some("14d".to_string()), false);
    let cfg = load_config(None, &overrides).unwrap();
    assert_eq!(cfg.fuse_days, 14);
}

#[test]
fn test_cli_override_fail_on_warn_sets_flag() {
    let overrides = CliOverrides::new(None, true);
    let cfg = load_config(None, &overrides).unwrap();
    assert!(cfg.fail_on_ticking);
}

#[test]
fn test_cli_override_fail_on_warn_false_by_default() {
    let cfg = load_config(None, &CliOverrides::default()).unwrap();
    assert!(!cfg.fail_on_ticking);
}

#[test]
fn test_cli_override_invalid_duration_returns_error() {
    let overrides = CliOverrides::new(Some("notvalid".to_string()), false);
    let result = load_config(None, &overrides);
    assert!(result.is_err(), "invalid duration string should return error");
}

#[test]
fn test_cli_overrides_new_without_warn_within() {
    let overrides = CliOverrides::new(None, false);
    assert!(overrides.fuse.is_none());
    assert!(!overrides.fail_on_ticking);
}

#[test]
fn test_merge_file_config_basic() {
    let f = ConfigFile { triggers: Some(strings(&["TODO"])), fuse_days: Some(7), ..file_cfg() };
    let cfg = merge_config(Some(f), &CliOverrides::default()).unwrap();
    assert_eq!(cfg.triggers, vec!["TODO"]);
    assert_eq!(cfg.fuse_days, 7);
}

#[test]
fn test_merge_file_config_cli_overrides_fuse() {
    let f = ConfigFile { fuse_days: Some(7), ..file_cfg() };
    let overrides = CliOverrides::new(Some("30d".to_string()), false);
    let cfg = merge_config(Some(f), &overrides).unwrap();
    assert_eq!(cfg.fuse_days, 30);
}

// -- extensions and the fuse pattern, as the sweep sees them ------------------

#[test]
fn config_tests_test_extension_allowed_rs() {
    let cfg = Config::default();
    assert!(cfg.extension_allowed("src/main.rs"));
}

#[test]
fn test_extension_allowed_go() {
    let cfg = Config::default();
    assert!(cfg.extension_allowed("pkg/server.go"));
}

#[test]
fn test_extension_allowed_py() {
    let cfg = Config::default();
    assert!(cfg.extension_allowed("scripts/deploy.py"));
}

#[test]
fn test_extension_not_allowed_xyz() {
    let cfg = Config::default();
    assert!(!cfg.extension_allowed("data.xyz"));
}

#[test]
fn test_extension_allowed_empty_list_allows_all() {
    let cfg = Config { extensions: vec![], ..Config::default() };
    assert!(cfg.extension_allowed("anything.xyz"));
    assert!(cfg.extension_allowed("Makefile"));
    assert!(cfg.extension_allowed("binary.exe"));
}

#[test]
fn test_annotation_regex_pattern_contains_all_default_tags() {
    let cfg = Config::default();
    let pattern = cfg.fuse_regex_pattern();
    for tag in &["TODO", "FIXME", "HACK", "TEMP", "REMOVEME"] {
        assert!(pattern.contains(tag), "pattern should contain tag '{}'", tag);
    }
}

#[test]
fn test_error_display_invalid_date() {
    let err = timebomb::error::Error::InvalidDate {
        date_str: "2026-13-45".to_string(),
        file: "src/main.rs".to_string(),
        line: 42,
    };
    let msg = err.message();
    assert!(msg.contains("2026-13-45"));
    assert!(msg.contains("src/main.rs"));
    assert!(msg.contains("42"));
    assert_eq!(msg, "Invalid date '2026-13-45' at src/main.rs:42 (expected YYYY-MM-DD)");
}
