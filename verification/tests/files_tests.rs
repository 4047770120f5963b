use revault_cli::files::{
    add_destination, add_outcome_message, prepare_add_sources, SourceStatus, cli_lockbox_path, direct_listing_rows, direct_child, extract_policy_from_args, join_lockbox_leaf, kind_name,
    leaf_name, listing_prefix, plural, terminal_width_fallback, AddOutcome, AddProgress, EntryKind, ListedEntry,
};
use revault_cli::messages::{ApiError, Failure};

#[test]
fn add_outcomes_merge_and_report() {
    let mut a = AddOutcome::new();
    a.record_file(false);
    a.record_file(true);
    let mut b = AddOutcome::new();
    b.record_file(false);
    a.merge(b);
    assert_eq!((a.added, a.replaced), (2, 1));
    assert_eq!(add_outcome_message(&a, "x.lbox"), "Added 2 files and replaced 1 file in x.lbox.");
    assert_eq!(add_outcome_message(&AddOutcome { added: 1, replaced: 0 }, "x.lbox"), "Added 1 file to x.lbox.");
    assert_eq!(add_outcome_message(&AddOutcome { added: 0, replaced: 3 }, "x.lbox"), "Replaced 3 files in x.lbox.");
    assert_eq!(plural(0, "file", "files"), "files");
}

#[test]
fn stored_paths_are_rooted_and_listed_by_prefix() {
    assert_eq!(cli_lockbox_path("docs/a"), "/docs/a");
    assert_eq!(cli_lockbox_path("/docs/a"), "/docs/a");
    assert_eq!(join_lockbox_leaf("/", "a"), "/a");
    assert_eq!(join_lockbox_leaf("/docs/", "a"), "/docs/a");
    assert_eq!(listing_prefix("/"), "/");
    assert_eq!(listing_prefix("/docs//"), "/docs/");
    assert_eq!(direct_child("/a/b"), Some(("a", true)));
    assert_eq!(direct_child("a"), Some(("a", false)));
    assert_eq!(direct_child("//"), None);
    assert_eq!(leaf_name("/docs/a/"), "a");
    assert_eq!(leaf_name("/"), "/");
    assert_eq!(kind_name(EntryKind::Symlink), "symlink");
}

#[test]
fn extract_flags_are_read_from_the_arguments() {
    let args: Vec<String> = vec!["--overwrite".to_string(), "x".to_string()];
    let policy = extract_policy_from_args(&args);
    assert!(policy.overwrite);
    assert!(!policy.restore_symlinks);
}

#[test]
fn add_progress_shows_the_latest_path() {
    let mut p = AddProgress::for_source(None, true, true);
    assert!(p.enabled);
    assert_eq!(p.record("a.txt", false).as_deref(), Some("\rAdding: a.txt"));
    assert_eq!(p.record("b.txt", false), None);
    assert_eq!(p.finish(Some("4")).as_deref(), Some("\rAdding: b.txt\r    \r"));
    let mut off = AddProgress::for_source(Some("off"), true, true);
    assert_eq!(off.record("a", true), None);
    assert_eq!(off.finish(None), None);
    let mut plain = AddProgress::for_source(Some("always"), false, false);
    assert_eq!(plain.record("a", false).as_deref(), Some("\rAdding: a"));
    assert_eq!(plain.finish(None).as_deref(), Some("\n"));
    assert_eq!(terminal_width_fallback(Some("0")), 120);
    assert_eq!(terminal_width_fallback(Some("80")), 80);
    assert_eq!(terminal_width_fallback(None), 120);
}

#[test]
fn added_sources_go_to_their_destination() {
    assert_eq!(add_destination("/home/u/notes.txt", false, 1, None).unwrap(), "/notes.txt");
    assert_eq!(add_destination("/home/u/dir", true, 1, None).unwrap(), "/");
    assert_eq!(add_destination("/home/u/dir", true, 1, Some("docs")).unwrap(), "/docs");
    assert_eq!(add_destination("/home/u/a.txt", false, 2, Some("docs")).unwrap(), "/docs/a.txt");
    assert_eq!(add_destination("/home/u/a.txt", false, 1, Some("docs/")).unwrap(), "/docs/a.txt");
    assert_eq!(add_destination("/home/u/a.txt", false, 1, Some("/docs/b.txt")).unwrap(), "/docs/b.txt");
    match add_destination("/", false, 1, None) {
        Err(ApiError::UnsupportedHostPath(m)) => assert_eq!(m, "source path is not valid UTF-8: /"),
        other => panic!("unexpected {other:?}"),
    }
}

fn listed(path: &str, kind: EntryKind, len: u64) -> ListedEntry {
    ListedEntry { path: path.to_string(), kind, len }
}

#[test]
fn listings_show_each_direct_child_once_by_name() {
    let dir = listed("/docs", EntryKind::Directory, 0);
    let entries = vec![
        listed("/docs/b.txt", EntryKind::File, 5),
        listed("/docs/a", EntryKind::Directory, 0),
        listed("/docs/a/x.txt", EntryKind::File, 3),
        listed("/docs/c/y", EntryKind::File, 1),
        listed("/docs/l", EntryKind::Symlink, 9),
    ];
    assert_eq!(
        direct_listing_rows("/docs", Some(&dir), &entries),
        vec![
            vec!["directory", "-", "a/"],
            vec!["file", "5", "b.txt"],
            vec!["directory", "-", "c/"],
            vec!["symlink", "9", "l"],
        ]
    );
    let file = listed("/docs/b.txt", EntryKind::File, 5);
    assert_eq!(direct_listing_rows("/docs/b.txt", Some(&file), &entries), vec![vec!["file", "5", "b.txt"]]);
    assert_eq!(
        direct_listing_rows("/", None, &[listed("/x", EntryKind::File, 1)]),
        vec![vec!["file", "1", "x"]]
    );
}

fn strings(v: &[&str]) -> Vec<String> {
    v.iter().map(|s| s.to_string()).collect()
}

fn refusal_text<T: std::fmt::Debug>(r: Result<T, Failure>) -> String {
    match r {
        Err(Failure::Message(m)) => m.summary,
        Err(Failure::Api(ApiError::UnsupportedHostPath(p))) => format!("unsupported: {p}"),
        other => panic!("unexpected {other:?}"),
    }
}

#[test]
fn add_sources_are_checked_in_order() {
    let files = strings(&["/h/a.txt", "/h/b.txt"]);
    let both = [SourceStatus::File, SourceStatus::File];
    let sources = prepare_add_sources(&files, &both, Some("docs/"), false).unwrap();
    assert_eq!(
        sources.iter().map(|s| (s.path.as_str(), s.destination.as_str(), s.is_directory)).collect::<Vec<_>>(),
        vec![("/h/a.txt", "/docs/a.txt", false), ("/h/b.txt", "/docs/b.txt", false)]
    );
    assert_eq!(
        refusal_text(prepare_add_sources(&files, &both, Some("docs"), false)),
        "--to must end with / when adding multiple sources"
    );
    let dir = strings(&["/h/d"]);
    assert_eq!(
        refusal_text(prepare_add_sources(&dir, &[SourceStatus::Directory], None, false)),
        "source is a directory: /h/d; pass --recursive to import its files"
    );
    let sources = prepare_add_sources(&dir, &[SourceStatus::Directory], None, true).unwrap();
    assert_eq!((sources[0].destination.as_str(), sources[0].is_directory), ("/", true));
    let mixed = strings(&["/h/d", "/h/a.txt"]);
    assert_eq!(
        refusal_text(prepare_add_sources(&mixed, &[SourceStatus::Directory, SourceStatus::File], Some("x/"), true)),
        "add directory sources separately so their stored roots are unambiguous"
    );
    let one = strings(&["/h/x"]);
    assert_eq!(refusal_text(prepare_add_sources(&one, &[SourceStatus::NotFound], None, false)), "file not found: /h/x");
    assert_eq!(
        refusal_text(prepare_add_sources(&one, &[SourceStatus::Failed("Permission denied".to_string())], None, false)),
        "cannot access source /h/x: Permission denied"
    );
    assert_eq!(refusal_text(prepare_add_sources(&one, &[SourceStatus::Other], None, false)), "unsupported: /h/x");
    let twins = strings(&["/h/a.txt", "/g/a.txt"]);
    assert_eq!(
        refusal_text(prepare_add_sources(&twins, &both, Some("docs/"), false)),
        "multiple sources map to the same lockbox path: /docs/a.txt"
    );
    let first_missing = strings(&["/h/gone", "/h/d"]);
    assert_eq!(
        refusal_text(prepare_add_sources(&first_missing, &[SourceStatus::NotFound, SourceStatus::Directory], Some("x/"), false)),
        "file not found: /h/gone"
    );
}
