use revault_cli::files::EntryKind;
use revault_cli::messages::ApiError;
use revault_cli::removal::{
    collapse_descendants_of_selected_directories, confirm_remove_prompt, glob_listing_request, merge_matched_entries,
    no_match_error, remove_confirmed, remove_flags, remove_report, require_patterns, require_recursive_for_directories,
    RemoveCandidate,
};

fn entry(path: &str, kind: EntryKind) -> RemoveCandidate {
    RemoveCandidate { path: path.to_string(), kind }
}

fn paths(v: &[RemoveCandidate]) -> Vec<&str> {
    v.iter().map(|e| e.path.as_str()).collect()
}

#[test]
fn selected_directories_take_their_descendants_along() {
    let entries = vec![
        entry("/docs/a.txt", EntryKind::File),
        entry("/docs", EntryKind::Directory),
        entry("/docs/sub/b.txt", EntryKind::File),
        entry("/docsx", EntryKind::File),
        entry("/other", EntryKind::File),
    ];
    let kept = collapse_descendants_of_selected_directories(&entries);
    assert_eq!(paths(&kept), vec!["/docs", "/docsx", "/other"]);
}

#[test]
fn targets_are_ordered_by_byte_length_and_stably() {
    let entries = vec![
        entry("/bb", EntryKind::File),
        entry("/é", EntryKind::File),
        entry("/aa", EntryKind::File),
        entry("/z", EntryKind::File),
    ];
    let kept = collapse_descendants_of_selected_directories(&entries);
    assert_eq!(paths(&kept), vec!["/z", "/bb", "/é", "/aa"]);
}

#[test]
fn a_file_does_not_collapse_and_root_covers_everything() {
    let files = vec![entry("/a", EntryKind::File), entry("/a/b", EntryKind::File)];
    assert_eq!(paths(&collapse_descendants_of_selected_directories(&files)), vec!["/a", "/a/b"]);
    let with_root = vec![entry("/a/b", EntryKind::File), entry("/", EntryKind::Directory), entry("/c", EntryKind::Directory)];
    assert_eq!(paths(&collapse_descendants_of_selected_directories(&with_root)), vec!["/"]);
    assert!(collapse_descendants_of_selected_directories(&[]).is_empty());
}

#[test]
fn matches_are_merged_by_path_in_order() {
    let matched = vec![
        entry("/b", EntryKind::File),
        entry("/a", EntryKind::File),
        entry("/b", EntryKind::Directory),
        entry("/a/x", EntryKind::File),
    ];
    let merged = merge_matched_entries(&matched);
    assert_eq!(paths(&merged), vec!["/a", "/a/x", "/b"]);
    assert_eq!(merged[2].kind, EntryKind::Directory);
}

#[test]
fn remove_flags_are_taken_out_of_the_arguments() {
    let args: Vec<String> = ["box.lbox", "--force", "/a", "--recursive", "/b"].iter().map(|s| s.to_string()).collect();
    let (force, recursive, rest) = remove_flags(&args);
    assert!(force && recursive);
    assert_eq!(rest, vec!["box.lbox", "/a", "/b"]);
    let (force, recursive, rest) = remove_flags(&args[..1]);
    assert!(!force && !recursive);
    assert_eq!(rest, vec!["box.lbox"]);
}

#[test]
fn remove_refusals() {
    assert_eq!(require_patterns(&[]).unwrap_err().summary, "remove requires at least one stored path or glob");
    assert!(require_patterns(&["/a".to_string()]).is_ok());
    let dir = vec![entry("/a", EntryKind::File), entry("/d", EntryKind::Directory)];
    assert_eq!(
        require_recursive_for_directories(&dir, false).unwrap_err().summary,
        "removing a directory requires --recursive (-r or -R)"
    );
    assert!(require_recursive_for_directories(&dir, true).is_ok());
    assert!(require_recursive_for_directories(&dir[..1], false).is_ok());
    match no_match_error("*.tmp") {
        ApiError::NotFound(m) => assert_eq!(m, "no lockbox entries match *.tmp"),
        _ => panic!("expected not found"),
    }
}

#[test]
fn glob_listings_recurse_only_across_directories() {
    assert_eq!(glob_listing_request("/*.txt"), ("*.txt".to_string(), false));
    assert_eq!(glob_listing_request("//docs/*.txt"), ("docs/*.txt".to_string(), true));
    assert_eq!(glob_listing_request("**.log"), ("**.log".to_string(), true));
}

#[test]
fn confirmation_prompt_and_answer() {
    let one = vec![entry("/a", EntryKind::File)];
    assert_eq!(confirm_remove_prompt(&one), "Remove lockbox entry '/a'? Type y or yes to confirm: ");
    let two = vec![entry("/a", EntryKind::File), entry("/d", EntryKind::Directory)];
    assert_eq!(confirm_remove_prompt(&two), "Remove 2 lockbox entries?\n  /a\n  /d\nType y or yes to confirm: ");
    assert!(remove_confirmed(" YES\n"));
    assert!(remove_confirmed("y"));
    assert!(!remove_confirmed("no"));
    assert!(!remove_confirmed(""));
}

#[test]
fn removal_reports() {
    assert_eq!(remove_report(&[entry("/d", EntryKind::Directory)]), "Removed 1 directory: /d");
    assert_eq!(remove_report(&[entry("/a", EntryKind::File), entry("/b", EntryKind::Symlink)]), "Removed 2 entries.");
}
