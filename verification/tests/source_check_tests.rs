use revault_cli::source_check::{
    ancestors_of, scan_refusal_message, ScanRefusal, check_source_entry, content_check, recorded_file_check, removed_check, seen_check, source_change_message,
    HostEntryKind, RecordedSource, SourceChange, SourceEntryStep,
};

#[test]
fn host_entries_are_walked_checked_or_refused() {
    assert_eq!(check_source_entry(true, false, HostEntryKind::Symlink, true, true), SourceEntryStep::Skip);
    assert_eq!(check_source_entry(false, true, HostEntryKind::File, true, true), SourceEntryStep::Skip);
    assert_eq!(
        check_source_entry(false, false, HostEntryKind::Symlink, true, true),
        SourceEntryStep::Refuse(SourceChange::SymbolicLink)
    );
    assert_eq!(check_source_entry(false, false, HostEntryKind::Directory, true, false), SourceEntryStep::Directory { mark_seen: true });
    assert_eq!(check_source_entry(false, false, HostEntryKind::Directory, false, false), SourceEntryStep::Directory { mark_seen: false });
    assert_eq!(check_source_entry(false, false, HostEntryKind::File, false, true), SourceEntryStep::File);
    assert_eq!(check_source_entry(false, false, HostEntryKind::File, false, false), SourceEntryStep::Skip);
    assert_eq!(
        check_source_entry(false, false, HostEntryKind::Other, true, true),
        SourceEntryStep::Refuse(SourceChange::Unsupported)
    );
}

#[test]
fn recorded_files_are_compared() {
    let rec = RecordedSource::File { len: 3, modified_nanos: Some(7) };
    assert_eq!(recorded_file_check(rec, 3, Some(7), false), Ok(false));
    assert_eq!(recorded_file_check(rec, 3, Some(7), true), Ok(true));
    assert_eq!(recorded_file_check(rec, 4, Some(7), false), Ok(true));
    assert_eq!(recorded_file_check(rec, 3, None, false), Ok(true));
    assert_eq!(recorded_file_check(RecordedSource::Absent, 3, None, false), Err(SourceChange::NewFile));
    assert_eq!(recorded_file_check(RecordedSource::Directory, 3, None, false), Err(SourceChange::FileReplacedEntry));
    assert_eq!(content_check("ab", "ab"), None);
    assert_eq!(content_check("ab", "cd"), Some(SourceChange::FileChanged));
    assert_eq!(seen_check(false), Some(SourceChange::NewEntry));
    assert_eq!(removed_check(false), Some(SourceChange::Removed));
    assert_eq!(removed_check(true), None);
}

#[test]
fn source_change_messages() {
    assert_eq!(
        source_change_message(SourceChange::NewEntry, "docs/new").summary,
        "source changed while updating the mirror; new entry found: docs/new"
    );
    assert_eq!(
        source_change_message(SourceChange::FileChanged, "/src/a.txt").summary,
        "source file changed while updating the mirror: /src/a.txt"
    );
    assert_eq!(
        source_change_message(SourceChange::Removed, "a.txt").summary,
        "source changed while updating the mirror; entry was removed: a.txt"
    );
}

#[test]
fn ancestors_are_listed_nearest_first() {
    assert_eq!(ancestors_of("a/b/c.txt"), vec!["a/b", "a"]);
    assert_eq!(ancestors_of("c.txt"), Vec::<String>::new());
}

#[test]
fn scan_refusals_name_the_entry() {
    assert_eq!(
        scan_refusal_message(ScanRefusal::SymbolicLink, "/src/l").summary,
        "symbolic links are not supported by mirror projects: /src/l"
    );
    assert_eq!(scan_refusal_message(ScanRefusal::DuplicatePath, "a").summary, "duplicate source path while scanning: a");
    assert_eq!(scan_refusal_message(ScanRefusal::Unsupported, "/dev/x").summary, "unsupported source entry type: /dev/x");
}
