use revault_cli::mirror::MissingFilePolicy;
use revault_cli::projects::{
    configure_report, configure_settings, project_json_text, project_report_lines, project_rows, projects_json_text,
    select_project, MirrorProject,
};

fn project(name: &str, host: Option<&str>) -> MirrorProject {
    MirrorProject {
        name: name.to_string(),
        source: "/home/u/site".to_string(),
        destination: "/site".to_string(),
        includes: vec!["src/**".to_string()],
        excludes: Vec::new(),
        missing_file_policy: MissingFilePolicy::Retain,
        strict: true,
        host_identity: host.map(str::to_string),
    }
}

fn names(v: &[&str]) -> Vec<String> {
    v.iter().map(|s| s.to_string()).collect()
}

#[test]
fn projects_are_chosen_by_name_or_when_alone() {
    assert_eq!(select_project(&names(&["a", "b"]), Some("b")).unwrap(), 1);
    assert_eq!(select_project(&names(&["site"]), None).unwrap(), 0);
    assert_eq!(select_project(&names(&["a"]), Some("x")).unwrap_err().summary, "mirror project not found: x");
    assert_eq!(select_project(&[], None).unwrap_err().summary, "no mirror projects are configured");
    assert_eq!(
        select_project(&names(&["a", "b"]), None).unwrap_err().summary,
        "more than one mirror project is configured; specify one of: a, b"
    );
}

#[test]
fn project_settings_change_by_option() {
    assert_eq!(
        configure_settings(MissingFilePolicy::Retain, false, Some("remove"), true, false).unwrap(),
        (MissingFilePolicy::Remove, true)
    );
    assert_eq!(
        configure_settings(MissingFilePolicy::Remove, true, None, false, true).unwrap(),
        (MissingFilePolicy::Remove, false)
    );
    assert_eq!(
        configure_settings(MissingFilePolicy::Remove, true, Some("keep"), false, false).unwrap_err().summary,
        "missing-files must be remove or retain"
    );
    assert_eq!(
        configure_report("site", MissingFilePolicy::Retain, true),
        vec!["Updated mirror 'site'.", "  missing files: retain", "  strict:        yes"]
    );
}

#[test]
fn projects_show_in_each_format() {
    let p = project("site", None);
    assert_eq!(
        project_json_text(&p),
        "{\"destination\":\"/site\",\"exclude\":[],\"host_identity\":null,\"include\":[\"src/**\"],\"missing_files\":\"retain\",\"name\":\"site\",\"source\":\"/home/u/site\",\"strict\":true}"
    );
    assert_eq!(
        project_report_lines(&p, "tsv"),
        vec!["site\t/home/u/site\t/site\tretain\ttrue\t", "include\tsrc/**"]
    );
    assert_eq!(
        project_report_lines(&project("site", Some("dev:7")), "table"),
        vec![
            "Mirror: site",
            "  source:        /home/u/site",
            "  destination:   /site",
            "  missing files: retain",
            "  strict:        yes",
            "  host identity: dev:7",
            "  include:",
            "    src/**",
            "  exclude:",
            "    (none)",
        ]
    );
    assert_eq!(project_report_lines(&p, "table")[5], "  host identity: unavailable");
    let both = vec![project("a", None), project("b", Some("h"))];
    assert_eq!(
        project_rows(&both),
        vec![vec!["a", "/home/u/site", "/site", "retain", "yes"], vec!["b", "/home/u/site", "/site", "retain", "yes"]]
    );
    let json = projects_json_text(&both);
    assert!(json.starts_with("[{\"destination\""));
    assert!(json.contains("},{"));
    assert!(json.ends_with("\"strict\":true}]"));
}
