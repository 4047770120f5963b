use revault_cli::access::{
    access_list_rows, access_method_lines, ListedSlot, matching_contact_slot_ids, refresh_scope, RefreshScope, refresh_plan_lines, resolve_revoke_target, retained_contact_names, AccessSlot,
    RefreshTarget,
};
use revault_cli::messages::{cli_error, CliMessage, Failure};
use revault_cli::recovery::SlotProtection;

fn slots() -> Vec<AccessSlot> {
    vec![
        AccessSlot { id: 1, protection: SlotProtection::Contact },
        AccessSlot { id: 2, protection: SlotProtection::Password },
        AccessSlot { id: 3, protection: SlotProtection::Contact },
        AccessSlot { id: 4, protection: SlotProtection::Contact },
    ]
}

fn labels() -> Vec<(u64, String)> {
    vec![(1, "alice".to_string()), (2, "alice".to_string()), (3, "bob".to_string()), (4, "alice".to_string())]
}

fn summary<T: std::fmt::Debug>(r: Result<T, CliMessage>) -> String {
    match r {
        Err(m) => m.summary,
        Ok(v) => panic!("unexpected success {v:?}"),
    }
}

#[test]
fn contact_slots_match_their_identity_label() {
    assert_eq!(matching_contact_slot_ids(&slots(), &labels(), "alice"), vec![1, 4]);
    assert_eq!(matching_contact_slot_ids(&slots(), &labels(), "bob"), vec![3]);
    assert!(matching_contact_slot_ids(&slots(), &labels(), "carol").is_empty());
}

#[test]
fn revocation_keeps_the_labelled_contacts() {
    assert_eq!(retained_contact_names(&slots(), &[2], &labels()).unwrap(), vec!["alice", "bob", "alice"]);
    assert_eq!(
        summary(retained_contact_names(&slots(), &[1, 2, 3, 4], &labels())),
        "cannot revoke the last access entry; grant another identity or contact first"
    );
    assert_eq!(
        summary(retained_contact_names(&slots(), &[1], &labels())),
        "cannot true-revoke while retaining non-contact access slot 2; rekey requires a vault-resolvable contact or identity"
    );
    let unlabelled = vec![(1, "alice".to_string()), (4, "alice".to_string())];
    assert_eq!(
        summary(retained_contact_names(&slots(), &[2], &unlabelled)),
        "cannot true-revoke because retained access slot 3 has no local vault label; use `lockbox access list` and restore the contact label before revoking"
    );
    let twice = vec![
        AccessSlot { id: 1, protection: SlotProtection::Contact },
        AccessSlot { id: 1, protection: SlotProtection::Contact },
    ];
    assert_eq!(
        summary(retained_contact_names(&twice, &[1], &labels())),
        "cannot true-revoke without at least one retained contact or identity"
    );
}

#[test]
fn revoke_targets_are_slot_ids_or_single_labels() {
    assert_eq!(resolve_revoke_target("17", &[], &[]).unwrap(), 17);
    assert_eq!(resolve_revoke_target("+5", &[9], &[]).unwrap(), 5);
    assert_eq!(resolve_revoke_target("alice", &[], &[3]).unwrap(), 3);
    assert_eq!(resolve_revoke_target("alice", &[4], &[3]).unwrap(), 4);
    assert_eq!(
        summary(resolve_revoke_target("contact:alice", &[], &[3])),
        "no local access label named contact:alice; use `lockbox access list` and revoke by slot id"
    );
    assert_eq!(
        summary(resolve_revoke_target("bob", &[1, 2], &[])),
        "multiple local access labels named bob; revoke by slot id"
    );
    assert_eq!(
        summary(resolve_revoke_target("carol", &[], &[5, 6])),
        "multiple local access labels named carol; revoke by slot id"
    );
}

#[test]
fn refresh_plans_list_targets_and_problems() {
    let targets = vec![
        RefreshTarget { lockbox_path: "/a.lbox".to_string(), identity: "alice".to_string(), slot_count: 2 },
        RefreshTarget { lockbox_path: "/b.lbox".to_string(), identity: "alice".to_string(), slot_count: 1 },
    ];
    let lines = refresh_plan_lines(
        None,
        Some(5),
        &targets,
        &["/gone.lbox".to_string()],
        &[("/locked.lbox".to_string(), "permission denied".to_string())],
        true,
        false,
    );
    assert_eq!(
        lines,
        vec![
            "Refresh plan:",
            "  identity: all",
            "  known lockboxes: 5",
            "  matching lockbox/identity pairs: 2",
            "  matching access entries: 3",
            "  dry run: yes",
            "  apply without prompt: no",
            "  missing: 1",
            "  inaccessible: 1",
            "",
            "Refresh targets:",
            "  /a.lbox alice (2 access entries)",
            "  /b.lbox alice (1 access entries)",
            "",
            "Missing known lockboxes:",
            "  /gone.lbox",
            "",
            "Inaccessible known lockboxes:",
            "  /locked.lbox: permission denied",
        ]
    );
    let lines = refresh_plan_lines(Some("bob"), None, &[], &[], &[], false, true);
    assert_eq!(
        lines,
        vec![
            "Refresh plan:",
            "  identity: bob",
            "  matching lockbox/identity pairs: 0",
            "  matching access entries: 0",
            "  dry run: no",
            "  apply without prompt: yes",
            "  missing: 0",
            "  inaccessible: 0",
        ]
    );
}

#[test]
fn configured_access_lists_each_slot() {
    assert_eq!(
        access_method_lines(&slots()),
        vec![
            "Configured access (public header)",
            "  pass phrase slots: 1",
            "  contact-key slots: 3",
            "  slots:",
            "    1: contact key",
            "    2: pass phrase",
            "    3: contact key",
            "    4: contact key",
        ]
    );
    assert_eq!(
        access_method_lines(&[]),
        vec!["Configured access (public header)", "  pass phrase slots: 0", "  contact-key slots: 0"]
    );
}

fn failure_text(r: Result<RefreshScope, Failure>) -> String {
    match r {
        Err(Failure::Message(m)) => m.summary,
        other => panic!("unexpected {other:?}"),
    }
}

#[test]
fn refresh_scopes_come_from_the_arguments() {
    let v = |s: &[&str]| s.iter().map(|x| x.to_string()).collect::<Vec<String>>();
    assert!(matches!(refresh_scope(true, v(&[]), None, Ok(None)), Ok(RefreshScope::All { identity: None })));
    assert!(matches!(
        refresh_scope(true, v(&["alice"]), None, Ok(None)),
        Ok(RefreshScope::All { identity: Some(ref i) }) if i == "alice"
    ));
    assert_eq!(
        failure_text(refresh_scope(true, v(&["a", "b"]), None, Ok(None))),
        "access refresh --all accepts at most one identity argument"
    );
    assert!(matches!(
        refresh_scope(false, v(&["alice"]), Some("/s.lbox"), Ok(None)),
        Ok(RefreshScope::One { ref lockbox_path, ref identity }) if lockbox_path == "/s.lbox" && identity == "alice"
    ));
    assert!(matches!(
        refresh_scope(false, v(&["alice"]), None, Ok(Some("/d.lbox".to_string()))),
        Ok(RefreshScope::One { ref lockbox_path, .. }) if lockbox_path == "/d.lbox"
    ));
    assert_eq!(
        failure_text(refresh_scope(false, v(&["alice", "bob"]), Some("/s.lbox"), Ok(None))),
        "access refresh requires lockbox and identity arguments"
    );
    assert_eq!(
        failure_text(refresh_scope(false, v(&["alice"]), None, Ok(None))),
        "missing lockbox; pass a .lbox path or set a session default lockbox"
    );
    assert_eq!(
        failure_text(refresh_scope(false, v(&["alice"]), None, Err(cli_error("broken session")))),
        "broken session"
    );
    assert_eq!(failure_text(refresh_scope(false, v(&[]), Some("/s.lbox"), Ok(None))), "missing required argument");
}

#[test]
fn access_list_shows_labels_owner_and_times() {
    let listed = vec![
        ListedSlot { id: 1, protection: "Password".to_string(), algorithm: "argon2id".to_string() },
        ListedSlot { id: 7, protection: "Contact".to_string(), algorithm: "x25519".to_string() },
    ];
    let labels = vec![(7u64, "identity:alice".to_string())];
    let rows = access_list_rows(&listed, &labels, None, true, "2024-01-02 03:04 UTC", "-");
    assert_eq!(rows.len(), 2);
    assert_eq!(rows[0], vec!["1", "-", "Password", "argon2id", "-", "yes", "2024-01-02 03:04 UTC", "-"]);
    assert_eq!(rows[1], vec!["7", "identity:alice", "Contact", "x25519", "-", "yes", "2024-01-02 03:04 UTC", "-"]);
    let signed = access_list_rows(&listed[..1], &labels, Some("ab:cd"), false, "-", "-");
    assert_eq!(signed[0][4], "ab:cd");
    assert_eq!(signed[0][5], "no");
}
