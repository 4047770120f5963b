//! Mirror projects as configured in a lockbox: choosing one, changing its
//! settings, and showing or listing them.

use vstd::prelude::*;
use crate::text;
use crate::output::{json_quoted, json_string, row_view};
use crate::mirror::{MissingFilePolicy, policy_name, yes_no, json_array, labelled, rule_values};
use crate::messages::{CliMessage, cli_error, is_plain_error};

verus! {

/// A mirror project: a host directory kept in step with a stored directory.
#[derive(Debug)]
pub struct MirrorProject {
    pub name: String,
    pub source: String,
    pub destination: String,
    pub includes: Vec<String>,
    pub excludes: Vec<String>,
    pub missing_file_policy: MissingFilePolicy,
    pub strict: bool,
    /// The host the source belongs to, when it is known.
    pub host_identity: Option<String>,
}

/// The index of the first name equal to `name`, if any.
pub open spec fn index_of_name(names: Seq<Seq<char>>, name: Seq<char>) -> Option<int>
    decreases names.len(),
{
    if names.len() == 0 {
        None
    } else {
        match index_of_name(names.drop_last(), name) {
            Some(i) => Some(i),
            None => if names.last() == name { Some(names.len() - 1) } else { None },
        }
    }
}

/// Chooses the project a command acts on, by index among the configured
/// projects' names: the one named, or the only one configured.
pub fn select_project(names: &[String], explicit: Option<&str>) -> (r: Result<usize, CliMessage>)
    ensures
        ({
            let nv = row_view(names@);
            match explicit {
                Some(e) => match index_of_name(nv, e@) {
                    Some(i) => r matches Ok(x) && x as int == i,
                    None => r matches Err(m) && is_plain_error(m, "mirror project not found: "@ + e@),
                },
                None => if nv.len() == 0 {
                    r matches Err(m) && is_plain_error(m, "no mirror projects are configured"@)
                } else if nv.len() == 1 {
                    r == Ok::<usize, CliMessage>(0)
                } else {
                    r matches Err(m) && is_plain_error(m,
                        "more than one mirror project is configured; specify one of: "@ + crate::output::joined(nv, ", "@))
                },
            }
        }),
{
    let ghost nv = row_view(names@);
    match explicit {
        Some(e) => {
            let n = names.len();
            let mut i: usize = 0;
            while i < n
                invariant
                    i <= n,
                    n == names@.len(),
                    nv == row_view(names@),
                    explicit == Some(e),
                    index_of_name(nv.subrange(0, i as int), e@) is None,
                decreases n - i,
            {
                assert(nv.subrange(0, i + 1).drop_last() =~= nv.subrange(0, i as int));
                if text::str_eq(names[i].as_str(), e) {
                    proof {
                        assert(nv.subrange(0, i + 1).last() == e@);
                        assert(index_of_name(nv.subrange(0, i + 1), e@) == Some(i as int));
                        lemma_index_of_name_prefix(nv, e@, i as int + 1);
                    }
                    return Ok(i);
                }
                i = i + 1;
            }
            assert(nv.subrange(0, n as int) =~= nv);
            Err(cli_error(text::concat2("mirror project not found: ", e).as_str()))
        },
        None => {
            if names.len() == 0 {
                Err(cli_error("no mirror projects are configured"))
            } else if names.len() == 1 {
                Ok(0)
            } else {
                let listed = crate::output::join_strings(names, ", ");
                Err(cli_error(text::concat2("more than one mirror project is configured; specify one of: ", listed.as_str()).as_str()))
            }
        },
    }
}

proof fn lemma_index_of_name_prefix(names: Seq<Seq<char>>, name: Seq<char>, i: int)
    requires
        0 <= i <= names.len(),
        index_of_name(names.subrange(0, i), name) is Some,
    ensures index_of_name(names, name) == index_of_name(names.subrange(0, i), name),
    decreases names.len() - i,
{
    if i < names.len() {
        assert(names.subrange(0, i + 1).drop_last() =~= names.subrange(0, i));
        lemma_index_of_name_prefix(names, name, i + 1);
    } else {
        assert(names.subrange(0, i) =~= names);
    }
}

/// The settings `mirror configure` leaves: `--missing-files` sets the policy
/// (`remove` or `retain`), `--strict` turns strict mode on, and otherwise
/// `--no-strict` turns it off.
pub fn configure_settings(
    policy: MissingFilePolicy,
    strict: bool,
    missing_files: Option<&str>,
    set_strict: bool,
    clear_strict: bool,
) -> (r: Result<(MissingFilePolicy, bool), CliMessage>)
    ensures
        ({
            let new_strict = if set_strict { true } else if clear_strict { false } else { strict };
            match missing_files {
                None => r == Ok::<(MissingFilePolicy, bool), CliMessage>((policy, new_strict)),
                Some(v) => if v@ == "remove"@ {
                    r == Ok::<(MissingFilePolicy, bool), CliMessage>((MissingFilePolicy::Remove, new_strict))
                } else if v@ == "retain"@ {
                    r == Ok::<(MissingFilePolicy, bool), CliMessage>((MissingFilePolicy::Retain, new_strict))
                } else {
                    r matches Err(m) && is_plain_error(m, "missing-files must be remove or retain"@)
                },
            }
        }),
{
    let new_policy = match missing_files {
        None => policy,
        Some(v) => {
            if text::str_eq(v, "remove") {
                MissingFilePolicy::Remove
            } else if text::str_eq(v, "retain") {
                MissingFilePolicy::Retain
            } else {
                return Err(cli_error("missing-files must be remove or retain"));
            }
        },
    };
    let new_strict = if set_strict { true } else if clear_strict { false } else { strict };
    Ok((new_policy, new_strict))
}

/// The name of a missing-file policy.
pub open spec fn policy_text(p: MissingFilePolicy) -> Seq<char> {
    match p {
        MissingFilePolicy::Remove => "remove"@,
        MissingFilePolicy::Retain => "retain"@,
    }
}

/// `yes` or `no`.
pub open spec fn yes_no_text(b: bool) -> Seq<char> {
    if b { "yes"@ } else { "no"@ }
}

/// The report after a project's settings are changed.
pub fn configure_report(name: &str, policy: MissingFilePolicy, strict: bool) -> (r: Vec<String>)
    ensures
        row_view(r@) == seq![
            "Updated mirror '"@ + name@ + "'."@,
            "  missing files: "@ + policy_text(policy),
            "  strict:        "@ + yes_no_text(strict)
        ],
{
    let mut out: Vec<String> = Vec::new();
    out.push(text::concat3("Updated mirror '", name, "'."));
    out.push(text::concat2("  missing files: ", policy_name(policy)));
    out.push(text::concat2("  strict:        ", yes_no(strict)));
    assert(row_view(out@) =~= seq![
        "Updated mirror '"@ + name@ + "'."@,
        "  missing files: "@ + policy_text(policy),
        "  strict:        "@ + yes_no_text(strict)
    ]);
    out
}

/// A flag as JSON and as `Display` prints it.
pub open spec fn bool_text(b: bool) -> Seq<char> {
    if b { "true"@ } else { "false"@ }
}

/// A project as a JSON object, its members in key order.
pub open spec fn project_json(p: MirrorProject) -> Seq<char> {
    "{\"destination\":"@ + json_quoted(p.destination@)
        + ",\"exclude\":"@ + json_array(row_view(p.excludes@))
        + ",\"host_identity\":"@ + match p.host_identity { Some(h) => json_quoted(h@), None => "null"@ }
        + ",\"include\":"@ + json_array(row_view(p.includes@))
        + ",\"missing_files\":"@ + json_quoted(policy_text(p.missing_file_policy))
        + ",\"name\":"@ + json_quoted(p.name@)
        + ",\"source\":"@ + json_quoted(p.source@)
        + ",\"strict\":"@ + bool_text(p.strict) + "}"@
}

fn push_quoted(out: &mut String, value: &str)
    ensures final(out)@ == old(out)@ + json_quoted(value@),
{
    let q = json_string(value);
    text::push_str(out, q.as_str());
}

/// The JSON object of a project.
pub fn project_json_text(p: &MirrorProject) -> (r: String)
    ensures r@ == project_json(*p),
{
    let mut out = text::owned("{\"destination\":");
    push_quoted(&mut out, p.destination.as_str());
    text::push_str(&mut out, ",\"exclude\":");
    crate::mirror::push_json_array(&mut out, &p.excludes);
    text::push_str(&mut out, ",\"host_identity\":");
    match &p.host_identity {
        Some(h) => push_quoted(&mut out, h.as_str()),
        None => text::push_str(&mut out, "null"),
    }
    text::push_str(&mut out, ",\"include\":");
    crate::mirror::push_json_array(&mut out, &p.includes);
    text::push_str(&mut out, ",\"missing_files\":");
    push_quoted(&mut out, policy_name(p.missing_file_policy));
    text::push_str(&mut out, ",\"name\":");
    push_quoted(&mut out, p.name.as_str());
    text::push_str(&mut out, ",\"source\":");
    push_quoted(&mut out, p.source.as_str());
    text::push_str(&mut out, ",\"strict\":");
    text::push_str(&mut out, if p.strict { "true" } else { "false" });
    text::push_str(&mut out, "}");
    out
}

/// How `mirror info` shows a project: `json` as one object line, `tsv` as a
/// settings line and one line per rule, anything else for reading.
pub open spec fn project_report(p: MirrorProject, format: Seq<char>) -> Seq<Seq<char>> {
    if format == "json"@ {
        seq![project_json(p)]
    } else if format == "tsv"@ {
        seq![p.name@ + "\t"@ + p.source@ + "\t"@ + p.destination@ + "\t"@ + policy_text(p.missing_file_policy)
            + "\t"@ + bool_text(p.strict) + "\t"@ + match p.host_identity { Some(h) => h@, None => ""@ }]
            + labelled("include\t"@, row_view(p.includes@)) + labelled("exclude\t"@, row_view(p.excludes@))
    } else {
        seq![
            "Mirror: "@ + p.name@,
            "  source:        "@ + p.source@,
            "  destination:   "@ + p.destination@,
            "  missing files: "@ + policy_text(p.missing_file_policy),
            "  strict:        "@ + yes_no_text(p.strict),
            "  host identity: "@ + match p.host_identity { Some(h) => h@, None => "unavailable"@ },
            "  include:"@
        ] + rule_values(row_view(p.includes@), "(all source paths)"@)
            + seq!["  exclude:"@] + rule_values(row_view(p.excludes@), "(none)"@)
    }
}

/// The lines that show a project.
pub fn project_report_lines(p: &MirrorProject, format: &str) -> (r: Vec<String>)
    ensures row_view(r@) == project_report(*p, format@),
{
    proof {
        reveal_strlit("json");
        reveal_strlit("tsv");
        assert("json"@.len() != "tsv"@.len());
    }
    let mut out: Vec<String> = Vec::new();
    if text::str_eq(format, "json") {
        out.push(project_json_text(p));
        assert(row_view(out@) =~= project_report(*p, format@));
        return out;
    }
    if text::str_eq(format, "tsv") {
        let mut line = text::concat3(p.name.as_str(), "\t", p.source.as_str());
        text::push_str(&mut line, "\t");
        text::push_str(&mut line, p.destination.as_str());
        text::push_str(&mut line, "\t");
        text::push_str(&mut line, policy_name(p.missing_file_policy));
        text::push_str(&mut line, "\t");
        text::push_str(&mut line, if p.strict { "true" } else { "false" });
        text::push_str(&mut line, "\t");
        match &p.host_identity {
            Some(h) => text::push_str(&mut line, h.as_str()),
            None => text::push_str(&mut line, ""),
        }
        out.push(line);
        let ghost first = out@;
        crate::mirror::push_labelled(&mut out, "include\t", &p.includes);
        crate::mirror::push_labelled(&mut out, "exclude\t", &p.excludes);
        assert(row_view(out@) =~= project_report(*p, format@));
        return out;
    }
    out.push(text::concat2("Mirror: ", p.name.as_str()));
    out.push(text::concat2("  source:        ", p.source.as_str()));
    out.push(text::concat2("  destination:   ", p.destination.as_str()));
    out.push(text::concat2("  missing files: ", policy_name(p.missing_file_policy)));
    out.push(text::concat2("  strict:        ", yes_no(p.strict)));
    match &p.host_identity {
        Some(h) => out.push(text::concat2("  host identity: ", h.as_str())),
        None => out.push(text::owned("  host identity: unavailable")),
    }
    out.push(text::owned("  include:"));
    let ghost head = out@;
    crate::mirror::push_rule_values(&mut out, &p.includes, "(all source paths)");
    let ghost mid = out@;
    out.push(text::owned("  exclude:"));
    assert(row_view(out@) =~= row_view(mid) + seq!["  exclude:"@]);
    crate::mirror::push_rule_values(&mut out, &p.excludes, "(none)");
    proof {
        reveal_strlit("  host identity: unavailable");
        reveal_strlit("  host identity: ");
        reveal_strlit("unavailable");
        assert("  host identity: unavailable"@ =~= "  host identity: "@ + "unavailable"@);
    }
    assert(row_view(out@) =~= project_report(*p, format@));
    out
}

/// The projects as a JSON array of objects.
pub open spec fn projects_json(ps: Seq<MirrorProject>) -> Seq<char> {
    "["@ + crate::output::joined(ps.map_values(|p: MirrorProject| project_json(p)), ","@) + "]"@
}

/// The JSON array of projects.
pub fn projects_json_text(projects: &[MirrorProject]) -> (r: String)
    ensures r@ == projects_json(projects@),
{
    let mut objects: Vec<String> = Vec::new();
    let n = projects.len();
    let mut i: usize = 0;
    while i < n
        invariant
            i <= n,
            n == projects@.len(),
            objects@.len() == i,
            forall|k: int| 0 <= k < i ==> #[trigger] objects@[k]@ == project_json(projects@[k]),
        decreases n - i,
    {
        objects.push(project_json_text(&projects[i]));
        i = i + 1;
    }
    assert(row_view(objects@) =~= projects@.map_values(|p: MirrorProject| project_json(p)));
    let body = crate::output::join_strings(objects.as_slice(), ",");
    let mut out = text::owned("[");
    text::push_str(&mut out, body.as_str());
    text::push_str(&mut out, "]");
    out
}

/// The row of a project in the list of projects: name, source, destination,
/// missing-file policy and strict mode.
pub open spec fn project_row(p: MirrorProject) -> Seq<Seq<char>> {
    seq![p.name@, p.source@, p.destination@, policy_text(p.missing_file_policy), yes_no_text(p.strict)]
}

/// The rows of the list of projects.
pub fn project_rows(projects: &[MirrorProject]) -> (r: Vec<Vec<String>>)
    ensures
        r@.len() == projects@.len(),
        forall|k: int| 0 <= k < projects@.len() ==> row_view((#[trigger] r@[k])@) == project_row(projects@[k]),
{
    let mut rows: Vec<Vec<String>> = Vec::new();
    let n = projects.len();
    let mut i: usize = 0;
    while i < n
        invariant
            i <= n,
            n == projects@.len(),
            rows@.len() == i,
            forall|k: int| 0 <= k < i ==> row_view((#[trigger] rows@[k])@) == project_row(projects@[k]),
        decreases n - i,
    {
        let p = &projects[i];
        let mut row: Vec<String> = Vec::new();
        row.push(p.name.clone());
        row.push(p.source.clone());
        row.push(p.destination.clone());
        row.push(text::owned(policy_name(p.missing_file_policy)));
        row.push(text::owned(yes_no(p.strict)));
        assert(row_view(row@) =~= project_row(projects@[i as int]));
        rows.push(row);
        i = i + 1;
    }
    rows
}

} // verus!
