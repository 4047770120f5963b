use revault_cli::mirror::{
    edit_rules, rule_list_lines, join_relative_destination, plan_report, policy_name, relative_lockbox_path, slash_path, status_warnings, validate_large_delete,
    validate_project_action_name, yes_no, MirrorEntry, MirrorPlan, MirrorProgress, MirrorUpdateOptions,
    MissingFilePolicy, PlanPaths,
};
use revault_cli::records::{FileFingerprint, PlanOperation};

#[test]
fn progress_lines_are_plain_without_a_terminal() {
    let mut p = MirrorProgress::new(true, false);
    assert_eq!(p.stage("scanning").as_deref(), Some("Mirror: scanning\n"));
    assert_eq!(p.finish("done").as_deref(), Some("Mirror: done\n"));
    assert_eq!(p.closing(), None);
    let mut off = MirrorProgress::new(false, true);
    assert_eq!(off.stage("x"), None);
    assert!(!off.redraw);
}

#[test]
fn progress_lines_are_redrawn_on_a_terminal() {
    let mut p = MirrorProgress::new(true, true);
    assert_eq!(p.stage("abc").as_deref(), Some("\rMirror: abc"));
    assert_eq!(p.stage("a").as_deref(), Some("\rMirror: a  "));
    assert_eq!(p.closing().as_deref(), Some("\n"));
    assert_eq!(p.finish("ok").as_deref(), Some("\rMirror: ok \n"));
    assert_eq!(p.line_width, 0);
    assert_eq!(p.closing(), None);
}

#[test]
fn counted_stages_report_each_tenth() {
    let mut p = MirrorProgress::new(true, false);
    assert_eq!(p.begin_counted("comparing").as_deref(), Some("Mirror: comparing\n"));
    assert_eq!(p.counted("compared", 1, 20), None);
    assert_eq!(p.counted("compared", 2, 20).as_deref(), Some("Mirror: compared 2/20 (10%)\n"));
    assert_eq!(p.next_percent, 20);
    assert_eq!(p.counted("compared", 3, 20), None);
    assert_eq!(p.counted("compared", 11, 20).as_deref(), Some("Mirror: compared 11/20 (55%)\n"));
    assert_eq!(p.next_percent, 60);
    assert_eq!(p.counted("compared", 20, 20).as_deref(), Some("Mirror: compared 20/20 (100%)\n"));
    assert_eq!(p.counted("compared", 0, 0), None);
}

#[test]
fn scanning_counts_saturate() {
    let mut p = MirrorProgress::new(true, false);
    assert!(!p.scanned(10, false));
    assert!(p.scanned(5, true));
    assert_eq!(p.scanned_bytes, 15);
    p.scanned_bytes = u64::MAX - 1;
    p.scanned(10, false);
    assert_eq!(p.scanned_bytes, u64::MAX);
    p.scanned_file();
    assert_eq!(p.scan_message("1.0KB"), "scanning (1 files complete, 1.0KB read).");
}

fn fp(len: u64, digest: &str) -> FileFingerprint {
    FileFingerprint { len, modified_nanos: None, digest: digest.to_string() }
}

#[test]
fn files_are_added_replaced_or_left_alone() {
    let mut plan = MirrorPlan::new();
    assert_eq!(plan.plan_file(&fp(3, "aa"), &MirrorEntry::Missing), vec![PlanOperation::Add]);
    assert_eq!(
        plan.plan_file(&fp(3, "aa"), &MirrorEntry::File { len: 3, digest: "aa".to_string() }),
        Vec::<PlanOperation>::new()
    );
    assert_eq!(
        plan.plan_file(&fp(3, "aa"), &MirrorEntry::File { len: 3, digest: "bb".to_string() }),
        vec![PlanOperation::Replace]
    );
    assert_eq!(
        plan.plan_file(&fp(3, "aa"), &MirrorEntry::Directory { files: 4 }),
        vec![PlanOperation::Remove, PlanOperation::Add]
    );
    assert_eq!(plan.plan_file(&fp(3, "aa"), &MirrorEntry::Other), vec![PlanOperation::Remove, PlanOperation::Add]);
    assert_eq!(
        (plan.additions, plan.replacements, plan.unchanged, plan.removals, plan.removed_files),
        (3, 1, 1, 2, 5)
    );
}

#[test]
fn directories_are_created_where_missing() {
    let mut plan = MirrorPlan::new();
    assert_eq!(plan.plan_destination("/", false), Vec::<PlanOperation>::new());
    assert_eq!(plan.plan_destination("/backup", false), vec![PlanOperation::MakeDirectory]);
    assert_eq!(plan.plan_destination("/backup", true), Vec::<PlanOperation>::new());
    assert_eq!(plan.plan_directory(&MirrorEntry::Missing), vec![PlanOperation::MakeDirectory]);
    assert_eq!(plan.plan_directory(&MirrorEntry::Directory { files: 9 }), Vec::<PlanOperation>::new());
    assert_eq!(
        plan.plan_directory(&MirrorEntry::File { len: 1, digest: String::new() }),
        vec![PlanOperation::Remove, PlanOperation::MakeDirectory]
    );
    assert_eq!((plan.directories, plan.removals, plan.removed_files), (3, 1, 1));
    plan.plan_missing(true, 7);
    plan.plan_missing(false, 7);
    assert_eq!((plan.removals, plan.removed_files), (3, 9));
}

#[test]
fn large_deletes_need_permission() {
    let mut plan = MirrorPlan::new();
    plan.removed_files = 6;
    let strict = MirrorUpdateOptions { allow_empty: false, allow_large_delete: false };
    assert_eq!(
        validate_large_delete(&plan, strict, 10).unwrap_err().summary,
        "mirror update would delete 6 of 10 managed files; pass --allow-large-delete"
    );
    assert!(validate_large_delete(&plan, MirrorUpdateOptions { allow_empty: false, allow_large_delete: true }, 10).is_ok());
    assert!(validate_large_delete(&plan, strict, 0).is_ok());
    plan.removed_files = 5;
    assert!(validate_large_delete(&plan, strict, 10).is_ok());
}

#[test]
fn blocked_updates_are_explained() {
    let mut plan = MirrorPlan::new();
    plan.removals = 2;
    plan.removed_files = 2;
    assert_eq!(
        status_warnings(&plan, true, 3),
        vec![
            "no source files match; update requires --allow-empty.".to_string(),
            "removing 2 of 3 managed files requires --allow-large-delete.".to_string(),
        ]
    );
    assert!(status_warnings(&plan, false, 4).is_empty());
}

#[test]
fn project_names_cannot_be_commands() {
    assert_eq!(
        validate_project_action_name("rules").unwrap_err().summary,
        "mirror project name 'rules' conflicts with a command"
    );
    assert!(validate_project_action_name("docs").is_ok());
    assert_eq!(yes_no(true), "yes");
    assert_eq!(policy_name(MissingFilePolicy::Retain), "retain");
}

#[test]
fn project_paths_join_with_one_slash() {
    assert_eq!(join_relative_destination(Some("/dest/"), "/a/b"), "/dest/a/b");
    assert_eq!(join_relative_destination(None, "/a/b"), "/a/b");
    assert_eq!(relative_lockbox_path("/", "/a/b"), "a/b");
    assert_eq!(relative_lockbox_path("/root", "/root/x"), "x");
    assert_eq!(relative_lockbox_path("/root", "/other"), "other");
    assert_eq!(slash_path(&["a".to_string(), "b".to_string()]), "a/b");
}

fn sample_plan_paths() -> PlanPaths {
    PlanPaths {
        add: vec!["/dst/a.txt".to_string()],
        replace: vec![],
        make_directory: vec!["/dst/d".to_string()],
        remove: vec!["/dst/old \"x\"".to_string()],
    }
}

fn sample_plan() -> MirrorPlan {
    MirrorPlan { additions: 1, replacements: 0, removals: 1, unchanged: 2, directories: 1, removed_files: 3 }
}

#[test]
fn plan_report_json_is_one_object_line() {
    let lines = plan_report(&sample_plan(), "docs", "/src", "/dst", "json", &sample_plan_paths());
    assert_eq!(
        lines,
        vec![
            "{\"source\":\"/src\",\"destination\":\"/dst\",\"add\":[\"/dst/a.txt\"],\"replace\":[],\"create_directory\":[\"/dst/d\"],\"remove\":[\"/dst/old \\\"x\\\"\"],\"remove_file_count\":3,\"unchanged\":2}"
                .to_string()
        ]
    );
}

#[test]
fn plan_report_tsv_lists_each_path() {
    let lines = plan_report(&sample_plan(), "docs", "/src", "/dst", "tsv", &sample_plan_paths());
    assert_eq!(
        lines,
        vec![
            "add\t/dst/a.txt".to_string(),
            "create-directory\t/dst/d".to_string(),
            "remove\t/dst/old \"x\"".to_string(),
            "unchanged\t2".to_string(),
        ]
    );
}

#[test]
fn plan_report_summary_lists_removals() {
    let lines = plan_report(&sample_plan(), "docs", "/src", "/dst", "table", &sample_plan_paths());
    assert_eq!(
        lines,
        vec![
            "Mirror status for 'docs'".to_string(),
            String::new(),
            "  source:    /src".to_string(),
            "  add:       1 files".to_string(),
            "  replace:   0 files".to_string(),
            "  mkdir:     1 directories".to_string(),
            "  remove:    3 files".to_string(),
            "  unchanged: 2 files".to_string(),
            String::new(),
            "Entries to remove:".to_string(),
            "  /dst/old \"x\"".to_string(),
        ]
    );
    let mut quiet = sample_plan();
    quiet.removals = 0;
    let lines = plan_report(&quiet, "docs", "/src", "/dst", "table", &sample_plan_paths());
    assert_eq!(lines.len(), 8);
}

fn owned(v: &[&str]) -> Vec<String> {
    v.iter().map(|s| s.to_string()).collect()
}

#[test]
fn mirror_rules_are_edited_as_sorted_sets() {
    let inc = owned(&["src/**"]);
    let exc = owned(&["*.tmp", "target/**"]);
    let (i, e) = edit_rules(&inc, &exc, "add", Some("include"), &owned(&["docs/**", "src/**", "a/*"])).unwrap();
    assert_eq!((i, e.clone()), (owned(&["a/*", "docs/**", "src/**"]), exc.clone()));
    let (i, e) = edit_rules(&inc, &exc, "add", Some("exclude"), &owned(&["*.log"])).unwrap();
    assert_eq!((i, e), (inc.clone(), owned(&["*.log", "*.tmp", "target/**"])));
    let (i, e) = edit_rules(&inc, &exc, "remove", Some("exclude"), &owned(&["*.tmp", "nope"])).unwrap();
    assert_eq!((i, e), (inc.clone(), owned(&["target/**"])));
    assert_eq!(
        edit_rules(&inc, &exc, "remove", Some("include"), &owned(&["nope"])).unwrap_err().summary,
        "none of the supplied rules were stored"
    );
    assert_eq!(edit_rules(&inc, &exc, "clear", Some("all"), &[]).unwrap(), (Vec::new(), Vec::new()));
    assert_eq!(edit_rules(&inc, &exc, "clear", Some("include"), &[]).unwrap(), (Vec::new(), exc.clone()));
    assert_eq!(edit_rules(&inc, &exc, "add", None, &[]).unwrap_err().summary, "rule kind is required");
    assert_eq!(edit_rules(&inc, &exc, "rename", Some("include"), &[]).unwrap_err().summary, "unknown rule action: rename");
}

#[test]
fn mirror_rules_list_in_each_format() {
    let inc = owned(&["src/**"]);
    let exc: Vec<String> = Vec::new();
    assert_eq!(
        rule_list_lines(&inc, &exc, None, "table"),
        vec!["include:", "    src/**", "exclude:", "    (none)"]
    );
    assert_eq!(rule_list_lines(&exc, &inc, Some("include"), "table"), vec!["include:", "    (all source paths)"]);
    assert_eq!(rule_list_lines(&inc, &owned(&["*.tmp"]), None, "tsv"), vec!["include\tsrc/**", "exclude\t*.tmp"]);
    assert_eq!(
        rule_list_lines(&inc, &owned(&["*.tmp"]), Some("include"), "json"),
        vec!["{\"exclude\":null,\"include\":[\"src/**\"]}"]
    );
    assert_eq!(rule_list_lines(&inc, &exc, None, "json"), vec!["{\"exclude\":[],\"include\":[\"src/**\"]}"]);
}
