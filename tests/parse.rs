use delta_core::parse::{
    get_file_change_description_from_diff_line, get_file_extension_from_diff_line,
    parse_hunk_metadata,
};

#[test]
fn test_get_file_extension_from_diff_line() {
    assert_eq!(
        get_file_extension_from_diff_line("diff --git a/src/main.rs b/src/main.rs"),
        Some("rs")
    );
}

#[test]
fn test_get_file_change_description_from_diff_line() {
    assert_eq!(
        get_file_change_description_from_diff_line("diff --git a/src/main.rs b/src/main.rs"),
        "src/main.rs"
    );
}

#[test]
fn test_parse_hunk_metadata() {
    assert_eq!(
        parse_hunk_metadata("@@ -74,15 +75,14 @@ pub fn delta(\n"),
        (" pub fn delta(\n".to_string(), "75".to_string())
    );
}

#[test]
fn hunk_metadata_without_newline() {
    assert_eq!(
        parse_hunk_metadata("@@ -74,15 +75,14 @@ pub fn delta("),
        (" pub fn delta(".to_string(), "75".to_string())
    );
}

#[test]
fn hunk_metadata_missing_parts_are_empty() {
    assert_eq!(parse_hunk_metadata("not a hunk"), (String::new(), String::new()));
    assert_eq!(parse_hunk_metadata("@@ -1 @@"), (String::new(), String::new()));
    assert_eq!(parse_hunk_metadata("@@ -1 +7 @@"), (String::new(), "7 ".to_string()));
    assert_eq!(parse_hunk_metadata(""), (String::new(), String::new()));
}

#[test]
fn extension_of_extensionless_file_is_its_name() {
    assert_eq!(
        get_file_extension_from_diff_line("diff --git a/Makefile b/Makefile"),
        Some("Makefile")
    );
}

#[test]
fn extension_of_dotfile_is_its_name() {
    assert_eq!(
        get_file_extension_from_diff_line("diff --git a/.bashrc b/.bashrc"),
        Some(".bashrc")
    );
}

#[test]
fn extensions_that_differ_give_none() {
    assert_eq!(get_file_extension_from_diff_line("diff --git a/x.rs b/x.py"), None);
}

#[test]
fn one_extension_alone_is_taken() {
    assert_eq!(get_file_extension_from_diff_line("diff --git a/x.rs"), Some("rs"));
}

#[test]
fn no_paths_give_no_extension() {
    assert_eq!(get_file_extension_from_diff_line("diff --git"), None);
    assert_eq!(get_file_extension_from_diff_line(""), None);
    assert_eq!(get_file_extension_from_diff_line("diff --git a b"), None);
}

#[test]
fn description_of_deleted_file() {
    assert_eq!(
        get_file_change_description_from_diff_line("diff --git a/old.rs b//dev/null"),
        "deleted: old.rs"
    );
}

#[test]
fn description_of_added_file() {
    assert_eq!(
        get_file_change_description_from_diff_line("diff --git a//dev/null b/new.rs"),
        "added: new.rs"
    );
}

#[test]
fn description_of_renamed_file() {
    assert_eq!(
        get_file_change_description_from_diff_line("diff --git a/old.rs b/new.rs"),
        "renamed: old.rs \u{27f6} new.rs"
    );
}

#[test]
fn description_of_unparseable_line() {
    assert_eq!(get_file_change_description_from_diff_line("diff --git"), "?");
    assert_eq!(get_file_change_description_from_diff_line("diff --git a/x.rs"), "?");
}

#[test]
fn extensionless_file_in_directory_is_its_file_name() {
    assert_eq!(
        get_file_extension_from_diff_line("diff --git a/src/Makefile b/src/Makefile"),
        Some("Makefile")
    );
}
