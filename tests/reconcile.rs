use arkencrab::backup::{backup_file_name, backup_file_name_now, timestamp, LocalTime};
use arkencrab::diff::{diff_hunks, format_change, render_diff, ChangeKind, DiffLine};
use arkencrab::edit::{is_white, plan_reapply, trim_exec, Reapply};
use arkencrab::editor::{editor_command, EditorError};
use arkencrab::merge::{merge, plan_update, rewrite_esr, MARKER};
use arkencrab::prefs::{clean, clean_with_keys, template_keys};
use arkencrab::profile::{default_profile_path_in, ProfileError};
use arkencrab::version::find_version;

const PROFILES_INI: &str = "[Install4F96D1932A9F858E]\nDefault=Profiles/arkenfox\nLocked=1\n\n[Profile0]\nName=default\nIsRelative=1\nPath=Profiles/arkenfox\nDefault=1\n\n[General]\nStartWithLastProfile=1\nVersion=2\n";

#[test]
fn can_find_default_profile_path() {
    let result = default_profile_path_in(PROFILES_INI).unwrap();
    assert_eq!(result, "Profiles/arkenfox");
}

#[test]
fn profile_without_install_section_has_no_default() {
    let text = "[Profile0]\nName=default\nPath=Profiles/x\nDefault=1\n";
    assert_eq!(default_profile_path_in(text), Err(ProfileError::NoDefault));
}

#[test]
fn first_install_section_decides_even_without_default() {
    let text = "[InstallA]\nLocked=1\n\n[InstallB]\nDefault=Profiles/b\n";
    assert_eq!(default_profile_path_in(text), Err(ProfileError::NoDefault));
}

#[test]
fn malformed_profiles_ini_is_reported() {
    assert_eq!(default_profile_path_in("=value\n"), Err(ProfileError::Malformed));
}

#[test]
fn version_is_first_declared_digit_run() {
    assert_eq!(find_version("/**\n * version: 128\n * version: 129\n"), "unknown");
    assert_eq!(find_version("* version: 128\n* version: 129\n"), "128");
    assert_eq!(find_version("x\n*   version:   0042 tail\n"), "0042");
}

#[test]
fn version_is_unknown_without_version_line() {
    assert_eq!(find_version(""), "unknown");
    assert_eq!(find_version("user_pref(\"a\", 1);\n"), "unknown");
    assert_eq!(find_version(" * version: 12\n"), "unknown");
    assert_eq!(find_version("* version: x\n"), "unknown");
}

#[test]
fn update_with_new_template_reports_change() {
    let template = "* version: 128\nuser_pref(\"a\", 1);\n";
    let existing = "* version: 127\nuser_pref(\"a\", 1);\n";
    let plan = plan_update(existing, template, false, None);
    assert_eq!(plan.document, template);
    assert_eq!(plan.old_version, "127");
    assert_eq!(plan.new_version, "128");
    assert!(!plan.unchanged);
}

#[test]
fn update_with_same_document_is_unchanged() {
    let template = "* version: 128\nuser_pref(\"a\", 1);\n";
    let plan = plan_update(template, template, false, None);
    assert!(plan.unchanged);
    assert_eq!(plan.old_version, plan.new_version);
}

#[test]
fn merge_appends_marker_and_overrides() {
    let merged = merge("base\n", false, Some("user_pref(\"x\", 2);\n"));
    assert_eq!(
        merged,
        format!("base\n\n{}\n\nuser_pref(\"x\", 2);\n", MARKER)
    );
    assert!(merged.ends_with(&format!("{}\n\n{}", MARKER, "user_pref(\"x\", 2);\n")));
}

#[test]
fn merge_with_empty_overrides_ends_with_marker_block() {
    let merged = merge("t", false, Some(""));
    assert_eq!(merged, format!("t\n{}\n\n", MARKER));
}

#[test]
fn esr_flag_enables_esr_blocks() {
    let template = "a\n/* ESR enable */\nb /* ESR x */\n";
    let merged = merge(template, true, None);
    assert!(merged.contains("// ESR enable */"));
    assert!(!merged.contains("/* ESR"));
    assert_eq!(merged, "a\n// ESR enable */\nb // ESR x */\n");
}

#[test]
fn esr_rewrite_is_idempotent() {
    for t in ["/* ESR", "//* ESR/* ESR", "/*/* ESR ESR", "", "plain"] {
        let once = rewrite_esr(t);
        assert_eq!(rewrite_esr(&once), once);
    }
    assert_eq!(rewrite_esr("//* ESR"), "/// ESR");
}

#[test]
fn clean_removes_lines_naming_template_keys() {
    let store = "user_pref(\"a\", 1);\nuser_pref(\"b\", 2);\n";
    let template = "user_pref(\"a\", 1);\n";
    let r = clean(template, store);
    assert_eq!(r.kept, "user_pref(\"b\", 2);\n");
    assert_eq!(r.removed, 1);
}

#[test]
fn clean_is_idempotent() {
    let template = "user_pref(\"a\", 1);\n  user_pref(\"c\", true);\n";
    let store = "user_pref(\"a\", 1);\r\nuser_pref(\"b\", 2);\nuser_pref(\"c\", false);\nother\n";
    let first = clean(template, store);
    assert_eq!(first.removed, 2);
    assert_eq!(first.kept, "user_pref(\"b\", 2);\nother\n");
    let second = clean(template, &first.kept);
    assert_eq!(second.removed, 0);
    assert_eq!(second.kept, first.kept);
}

#[test]
fn clean_matches_keys_as_substrings() {
    let template = "user_pref(\"a\", 1);\n";
    let store = "user_pref(\"b\", \"a\");\nuser_pref(\"ab\", 1);\n";
    let r = clean(template, store);
    assert_eq!(r.removed, 1);
    assert_eq!(r.kept, "user_pref(\"ab\", 1);\n");
}

#[test]
fn clean_of_empty_store_leaves_a_newline() {
    let r = clean("user_pref(\"a\", 1);\n", "");
    assert_eq!(r.kept, "\n");
    assert_eq!(r.removed, 0);
}

#[test]
fn clean_keeps_every_line_without_a_key() {
    let keys = vec!["\"k\"".to_string()];
    let r = clean_with_keys(&keys, "x\n\"k\"\ny");
    assert_eq!(r.kept, "x\ny\n");
    assert_eq!(r.removed, 1);
}

#[test]
fn template_keys_are_the_quoted_names() {
    let keys = template_keys("user_pref(\"a.b\", 1);\n// user_pref(\"c\", 1);\n\tuser_pref(\"d\",2);\n");
    assert_eq!(keys, vec!["\"a.b\"".to_string(), "\"d\"".to_string()]);
}

#[test]
fn edit_without_marker_does_not_reapply() {
    let existing = "* version: 128\nuser_pref(\"a\", 1);\n";
    assert_eq!(plan_reapply(existing, "user_pref(\"x\", 1);\n"), Reapply::NoManagedRegion);
    assert_eq!(plan_reapply("", "o"), Reapply::NoManagedRegion);
}

#[test]
fn edit_with_marker_rebuilds_override_block() {
    let existing = format!("base\nline\n\n{}\n\nold override\n", MARKER);
    let r = plan_reapply(&existing, "new override\n");
    assert_eq!(
        r,
        Reapply::Rewrite(format!("base\nline\n\n{}\n\nnew override\n", MARKER))
    );
}

#[test]
fn edit_marker_is_found_after_trimming() {
    let existing = format!("base\n   {}  \nold\n", MARKER);
    let r = plan_reapply(&existing, "new");
    assert_eq!(r, Reapply::Rewrite(format!("base\n{}\n\nnew", MARKER)));
}

#[test]
fn trim_removes_surrounding_white_space() {
    let s: Vec<char> = " \t a b \n".chars().collect();
    assert_eq!(trim_exec(&s), vec!['a', ' ', 'b']);
}

#[test]
fn editor_defaults_when_not_given_or_malformed() {
    let c = editor_command(None, "nano").ok().unwrap();
    assert_eq!(c.program, "nano");
    assert!(c.args.is_empty());
    let c = editor_command(Some("'unterminated"), "nano").ok().unwrap();
    assert_eq!(c.program, "nano");
}

#[test]
fn editor_program_is_last_word() {
    let c = editor_command(Some("code --wait"), "nano").ok().unwrap();
    assert_eq!(c.program, "--wait");
    assert_eq!(c.args, vec!["code".to_string()]);
}

#[test]
fn empty_editor_is_an_error() {
    assert!(matches!(editor_command(Some("  "), "nano"), Err(EditorError::Empty)));
}

#[test]
fn diff_shows_changed_lines_with_tags() {
    let text = render_diff("a\nb\n", "a\nc\n");
    assert_eq!(text, " \ta\n-\tb\n+\tc\n");
    let hunks = diff_hunks("a\nb\n", "a\nc\n");
    assert_eq!(hunks.len(), 1);
    assert_eq!(hunks[0].len(), 3);
    assert_eq!(hunks[0][1].kind, ChangeKind::Delete);
    assert_eq!(hunks[0][2].kind, ChangeKind::Insert);
}

#[test]
fn diff_of_equal_documents_is_empty() {
    assert_eq!(render_diff("", ""), "");
    assert_eq!(render_diff("a\nb\n", "a\nb\n"), "");
}

#[test]
fn diff_hunks_are_separated_by_newlines() {
    let old = "1\n2\n3\n4\n5\n6\n7\n8\n9\n";
    let new = "x\n2\n3\n4\n5\n6\n7\n8\ny\n";
    assert_eq!(diff_hunks(old, new).len(), 2);
    assert_eq!(render_diff(old, new), "-\t1\n+\tx\n \t2\n \t3\n\n \t7\n \t8\n-\t9\n+\ty\n");
}

#[test]
fn format_change_prefixes_tag_and_tab() {
    let line = DiffLine { kind: ChangeKind::Equal, text: "same\n".to_string() };
    assert_eq!(format_change(&line), " \tsame\n");
}

#[test]
fn timestamp_is_zero_padded() {
    let t = LocalTime { year: 2025, month: 1, day: 2, hour: 3, minute: 4, second: 5 };
    assert_eq!(timestamp(&t), "2025-01-02-03-04-05");
    let t = LocalTime { year: 12345, month: 12, day: 31, hour: 23, minute: 59, second: 59 };
    assert_eq!(timestamp(&t), "+12345-12-31-23-59-59");
    let t = LocalTime { year: 7, month: 10, day: 10, hour: 0, minute: 0, second: 0 };
    assert_eq!(timestamp(&t), "0007-10-10-00-00-00");
}

#[test]
fn backup_name_appends_stamp() {
    assert_eq!(
        backup_file_name("user.js", "2025-01-02-03-04-05"),
        "user.js.backup.2025-01-02-03-04-05"
    );
    let now = backup_file_name_now("prefs.js");
    assert!(now.starts_with("prefs.js.backup."));
    assert_eq!(now.len(), "prefs.js.backup.".len() + 19);
}

#[test]
fn edit_of_crlf_document_without_marker_does_not_reapply() {
    assert_eq!(plan_reapply("a\r\nb", "o"), Reapply::NoManagedRegion);
    assert_eq!(plan_reapply("a\r\nb\r\n\r\n", "o"), Reapply::NoManagedRegion);
}

#[test]
fn edit_with_marker_on_first_line_keeps_empty_prefix() {
    let existing = format!("{}\r\n\r\nold", MARKER);
    assert_eq!(plan_reapply(&existing, "o"), Reapply::Rewrite(format!("\n{}\n\no", MARKER)));
}

#[test]
fn white_space_agrees_with_std() {
    for c in (0u32..=0x10ffff).filter_map(char::from_u32) {
        assert_eq!(is_white(c), c.is_whitespace(), "{:?}", c);
    }
}
