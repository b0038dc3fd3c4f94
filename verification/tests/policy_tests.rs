use ninecopy::config::{resolve_thread_count, validate_run, Args};
use ninecopy::copy::{classify_copy_attempt, decide_file, CopyAttempt, FileAction};
use ninecopy::errors::CopyError;
use ninecopy::paths::{path_join, re_root, starts_with_path, str_eq};

fn args(skip: bool, overwrite: bool) -> Args {
    Args {
        src: "/src".to_string(),
        dst: "/dst".to_string(),
        overwrite,
        skip,
        progress: false,
        threads: None,
        copy_if_newer: false,
        copy_if_larger: false,
        continue_on_error: false,
    }
}

#[test]
fn missing_source_is_fatal() {
    let r = validate_run(&args(false, false), false, false);
    assert_eq!(r, Err(CopyError::SourceNotFound("/src".to_string())));
}

#[test]
fn file_source_is_not_faster() {
    let r = validate_run(&args(false, false), true, false);
    assert_eq!(r, Err(CopyError::NotFaster));
}

#[test]
fn skip_and_overwrite_together_are_rejected() {
    let r = validate_run(&args(true, true), true, true);
    assert_eq!(
        r,
        Err(CopyError::Other("Cannot have both skip and overwrite set.".to_string()))
    );
}

#[test]
fn directory_source_is_accepted() {
    assert_eq!(validate_run(&args(false, false), true, true), Ok(()));
    assert_eq!(validate_run(&args(true, false), true, true), Ok(()));
    assert_eq!(validate_run(&args(false, true), true, true), Ok(()));
}

#[test]
fn thread_count_prefers_request_then_cores_then_two() {
    assert_eq!(resolve_thread_count(Some(7), Some(4)), 7);
    assert_eq!(resolve_thread_count(None, Some(4)), 4);
    assert_eq!(resolve_thread_count(None, None), 2);
}

#[test]
fn decide_file_conflict_without_flags_is_fatal() {
    assert_eq!(decide_file(true, true, false, false), FileAction::FatalExists);
    // fatal even when the source has vanished in the meantime
    assert_eq!(decide_file(false, true, false, false), FileAction::FatalExists);
}

#[test]
fn decide_file_vanished_source_is_skipped() {
    assert_eq!(decide_file(false, false, false, false), FileAction::SkipMissing);
    assert_eq!(decide_file(false, true, true, false), FileAction::SkipMissing);
    assert_eq!(decide_file(false, true, false, true), FileAction::SkipMissing);
}

#[test]
fn decide_file_existing_destination_with_skip_is_skipped() {
    assert_eq!(decide_file(true, true, true, false), FileAction::SkipExisting);
}

#[test]
fn decide_file_copies_otherwise() {
    assert_eq!(decide_file(true, false, false, false), FileAction::CopyIt);
    assert_eq!(decide_file(true, false, true, false), FileAction::CopyIt);
    assert_eq!(decide_file(true, true, false, true), FileAction::CopyIt);
}

#[test]
fn classify_copy_attempt_maps_results() {
    let ok = classify_copy_attempt(
        CopyAttempt::Copied,
        "/src/a".to_string(),
        "/dst/a".to_string(),
        9,
    )
    .unwrap();
    assert_eq!(ok.file_count_copied, 1);
    assert_eq!(ok.byte_count_copied, 9);
    let denied = classify_copy_attempt(
        CopyAttempt::PermissionDenied,
        "/src/a".to_string(),
        "/dst/a".to_string(),
        9,
    );
    assert_eq!(
        denied,
        Err(CopyError::AccessDenied("/src/a".to_string(), "/dst/a".to_string()))
    );
    let other = classify_copy_attempt(
        CopyAttempt::OtherFailure("disk full".to_string()),
        "/src/a".to_string(),
        "/dst/a".to_string(),
        9,
    );
    assert_eq!(other, Err(CopyError::Other("disk full".to_string())));
}

#[test]
fn error_messages_match_each_variant() {
    assert_eq!(
        CopyError::NotFaster.message(),
        "This isn't any faster for single files, just use cp/copy."
    );
    assert_eq!(
        CopyError::SourceNotFound("/s".to_string()).message(),
        "Source path not found: /s"
    );
    assert_eq!(
        CopyError::CannotOverwrite("/d/a".to_string()).message(),
        "Destination file already exists: /d/a"
    );
    assert_eq!(
        CopyError::DirectoryCreationFailed("boom".to_string()).message(),
        "Could not create destination directory: boom"
    );
    assert_eq!(
        CopyError::AccessDenied("/s/a".to_string(), "/d/a".to_string()).message(),
        "Access denied copying /s/a to /d/a"
    );
    assert_eq!(CopyError::Other("oops".to_string()).message(), "Error: oops");
}

#[test]
fn re_root_mirrors_the_relative_suffix() {
    assert_eq!(re_root("/src/a.txt", "/src", "/dst"), "/dst/a.txt");
    assert_eq!(re_root("/src/sub/b.txt", "/src", "/dst"), "/dst/sub/b.txt");
    assert_eq!(re_root("/src", "/src", "/other"), "/other");
}

#[test]
fn path_join_inserts_a_separator() {
    assert_eq!(path_join("/src", "a.txt"), "/src/a.txt");
    assert_eq!(path_join("/src/sub", "b.txt"), "/src/sub/b.txt");
}

#[test]
fn prefix_and_equality_checks() {
    assert!(starts_with_path("/src/a.txt", "/src"));
    assert!(starts_with_path("/src", "/src"));
    assert!(!starts_with_path("/sr", "/src"));
    assert!(!starts_with_path("/dst/a", "/src"));
    assert!(str_eq("/a/b", "/a/b"));
    assert!(!str_eq("/a/b", "/a/c"));
    assert!(!str_eq("/a/b", "/a/bb"));
}
