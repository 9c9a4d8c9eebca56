use timebomb::hook::{
    hook_has_timebomb_block, install_plan, real_content, remove_timebomb_block, uninstall_plan, HookInstall,
    HookUninstall, HOOK_BLOCK, MARKER_BEGIN, MARKER_END, NEW_HOOK_CONTENT,
};

/// The hook script after installing into `existing` (None: no hook yet).
fn installed(existing: Option<&str>) -> String {
    match install_plan(existing) {
        HookInstall::AlreadyInstalled => existing.unwrap().to_string(),
        HookInstall::Append(c) => c,
        HookInstall::Create(c) => c,
    }
}

#[test]
fn test_remove_timebomb_block_basic() {
    let input = "line before\n# BEGIN timebomb\ntimebomb check --since HEAD .\n# END timebomb\nline after\n";
    let output = remove_timebomb_block(input);
    assert!(!output.contains(MARKER_BEGIN));
    assert!(!output.contains(MARKER_END));
    assert!(output.contains("line before"));
    assert!(output.contains("line after"));
    assert_eq!(output, "line before\nline after\n");
}

#[test]
fn test_hook_has_timebomb_block() {
    assert!(hook_has_timebomb_block("some content\n# BEGIN timebomb\nstuff\n# END timebomb\n"));
    assert!(!hook_has_timebomb_block("just a regular hook\n"));
}

#[test]
fn test_remove_timebomb_block_no_block_is_noop() {
    let input = "#!/bin/sh\necho 'no timebomb here'\n";
    let output = remove_timebomb_block(input);
    assert!(output.contains("echo 'no timebomb here'"));
    assert!(!output.contains(MARKER_BEGIN));
}

#[test]
fn test_remove_timebomb_block_preserves_surrounding_lines() {
    let input = "\
#!/bin/sh\n\
echo before\n\
# BEGIN timebomb\n\
timebomb check --since HEAD .\n\
# END timebomb\n\
echo after\n\
";
    let output = remove_timebomb_block(input);
    assert!(!output.contains(MARKER_BEGIN));
    assert!(!output.contains(MARKER_END));
    assert!(output.contains("echo before"));
    assert!(output.contains("echo after"));
    assert!(!output.contains("timebomb check"));
}

#[test]
fn test_new_hook_content_is_executable_script() {
    assert!(NEW_HOOK_CONTENT.starts_with("#!/bin/sh"));
    assert!(NEW_HOOK_CONTENT.contains("set -e"));
    assert!(NEW_HOOK_CONTENT.contains(MARKER_BEGIN));
    assert!(NEW_HOOK_CONTENT.contains(MARKER_END));
}

#[test]
fn test_hook_block_constant_is_valid() {
    assert!(HOOK_BLOCK.contains(MARKER_BEGIN));
    assert!(HOOK_BLOCK.contains(MARKER_END));
    assert!(HOOK_BLOCK.contains("timebomb check"));
}

#[test]
fn test_hook_install_creates_new_file() {
    let content = installed(None);
    assert!(content.contains(MARKER_BEGIN));
    assert!(content.contains(MARKER_END));
    assert!(content.contains("timebomb check --since HEAD ."));
    assert_eq!(content, NEW_HOOK_CONTENT);
}

#[test]
fn test_hook_install_is_idempotent() {
    let once = installed(None);
    assert!(matches!(install_plan(Some(&once)), HookInstall::AlreadyInstalled));
    let twice = installed(Some(&once));
    assert_eq!(twice.matches(MARKER_BEGIN).count(), 1);

    let existing = "#!/bin/sh\necho 'existing hook'\n";
    let first = installed(Some(existing));
    assert!(matches!(install_plan(Some(&first)), HookInstall::AlreadyInstalled));
}

#[test]
fn test_hook_install_appends_to_existing_hook() {
    let content = installed(Some("#!/bin/sh\necho 'existing hook'\n"));
    assert!(content.contains("echo 'existing hook'"));
    assert!(content.contains(MARKER_BEGIN));
    assert!(content.contains("timebomb check --since HEAD ."));
    assert_eq!(
        content,
        "#!/bin/sh\necho 'existing hook'\n# BEGIN timebomb\ntimebomb check --since HEAD .\n# END timebomb\n"
    );
}

#[test]
fn test_hook_uninstall_removes_block() {
    let content = installed(None);
    assert!(matches!(uninstall_plan(Some(&content)), HookUninstall::Delete));
}

#[test]
fn test_hook_uninstall_preserves_other_content() {
    let content = installed(Some("#!/bin/sh\necho 'my other check'\n"));
    match uninstall_plan(Some(&content)) {
        HookUninstall::Write(c) => {
            assert!(!c.contains(MARKER_BEGIN));
            assert!(c.contains("my other check"));
            assert_eq!(c, "#!/bin/sh\necho 'my other check'\n");
        }
        _ => panic!("expected the hook to be rewritten"),
    }
}

#[test]
fn test_hook_uninstall_on_missing_hook() {
    assert!(matches!(uninstall_plan(None), HookUninstall::NoHook));
}

#[test]
fn test_hook_uninstall_no_timebomb_in_existing_hook() {
    assert!(matches!(
        uninstall_plan(Some("#!/bin/sh\necho 'unrelated'\n")),
        HookUninstall::NotInstalled
    ));
}

#[test]
fn real_content_ignores_shebang_and_set_e() {
    assert!(!real_content("#!/bin/sh\nset -e\n\n"));
    assert!(real_content("#!/bin/sh\nmake lint\n"));
}
