use revault_cli::completion::{
    candidates, detect_shell_from, install_managed_block, remove_managed_block, standard_install_path, CompletionShell,
    POWERSHELL_BLOCK_END, POWERSHELL_BLOCK_START, named_candidates, sorted_candidates};

#[test]
fn shell_override_accepts_supported_names_and_aliases() {
    assert_eq!(CompletionShell::parse("bash"), Some(CompletionShell::Bash));
    assert_eq!(CompletionShell::parse("PWSh"), Some(CompletionShell::PowerShell));
    assert_eq!(CompletionShell::parse("unknown"), None);
}

#[test]
fn candidate_filter_is_static_and_secret_free() {
    let values = candidates(Some("al"), vec!["alice".to_string(), "bob".to_string()]);
    assert_eq!(values.len(), 1);
    assert_eq!(values[0], "alice");
}

#[test]
fn shell_detection_handles_unix_windows_and_ambiguity() {
    assert_eq!(detect_shell_from(false, Some("/bin/zsh"), None, None), Some(CompletionShell::Zsh));
    assert_eq!(detect_shell_from(true, None, Some("modules"), None), Some(CompletionShell::PowerShell));
    assert_eq!(detect_shell_from(false, None, None, None), None);
    assert_eq!(detect_shell_from(false, Some("/bin/unknown"), None, None), None);
}

#[test]
fn powershell_managed_block_preserves_user_profile_content() {
    let profile = format!("before\n{POWERSHELL_BLOCK_START}\nold\n{POWERSHELL_BLOCK_END}\nafter\n");
    assert_eq!(remove_managed_block(&profile), "before\nafter\n");
    assert_eq!(remove_managed_block("user content\n"), "user content\n");
}

#[test]
fn installed_block_is_removed_again() {
    let installed = install_managed_block("user content", "Register-Completer");
    assert_eq!(
        installed,
        format!("user content\n{POWERSHELL_BLOCK_START}\nRegister-Completer\n{POWERSHELL_BLOCK_END}\n")
    );
    assert_eq!(remove_managed_block(&installed), "user content\n");
    let again = install_managed_block(&installed, "Register-Completer\n");
    assert_eq!(again, installed);
}

#[test]
fn completion_files_go_to_each_shell_standard_place() {
    assert_eq!(
        standard_install_path(CompletionShell::Bash, Some("/home/u"), "lockbox", false).unwrap(),
        "/home/u/.local/share/bash-completion/completions/lockbox"
    );
    assert_eq!(
        standard_install_path(CompletionShell::Zsh, Some("/home/u"), "lockbox", false).unwrap(),
        "/home/u/.local/share/zsh/site-functions/_lockbox"
    );
    assert_eq!(
        standard_install_path(CompletionShell::Fish, Some("/home/u"), "lbx", false).unwrap(),
        "/home/u/.config/fish/completions/lbx.fish"
    );
    assert_eq!(
        standard_install_path(CompletionShell::PowerShell, Some("/home/u"), "lbx", false).unwrap(),
        "/home/u/.config/powershell/Microsoft.PowerShell_profile.ps1"
    );
    let missing = standard_install_path(CompletionShell::Bash, None, "lockbox", false).unwrap_err();
    assert_eq!(missing.summary, "home directory is unavailable");
}

fn strings(v: &[&str]) -> Vec<String> {
    v.iter().map(|s| s.to_string()).collect()
}

#[test]
fn gathered_candidates_are_sorted_and_unique() {
    let values = strings(&["beta", "alpha", "al", "beta", "gamma"]);
    assert_eq!(sorted_candidates(Some("a"), values.clone()), strings(&["al", "alpha"]));
    assert_eq!(sorted_candidates(Some(""), values.clone()), strings(&["al", "alpha", "beta", "gamma"]));
    assert!(sorted_candidates(None, values).is_empty());
}

#[test]
fn named_candidates_merge_profiles_and_contacts() {
    let profiles = strings(&["work", "default"]);
    let contacts = strings(&["wendy", "work", "bob"]);
    assert_eq!(named_candidates(Some("w"), profiles.clone(), contacts.clone()), strings(&["wendy", "work"]));
    assert_eq!(named_candidates(Some(""), profiles, contacts), strings(&["bob", "default", "wendy", "work"]));
}

#[test]
fn shell_names_parse_back_in_any_case() {
    for shell in [
        CompletionShell::Bash,
        CompletionShell::Zsh,
        CompletionShell::Fish,
        CompletionShell::PowerShell,
        CompletionShell::Elvish,
    ] {
        let name = shell.name();
        assert!(name.bytes().all(|b| b.is_ascii_lowercase()));
        assert_eq!(CompletionShell::parse(name), Some(shell));
        assert_eq!(CompletionShell::parse(&name.to_ascii_uppercase()), Some(shell));
    }
}
