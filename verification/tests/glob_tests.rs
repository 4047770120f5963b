use revault_cli::glob::{excluded, glob_match_component, glob_matches, included};

#[test]
fn shared_rules_match_paths_and_globs() {
    assert!(included("src/main.rs", &["**/*.rs".to_string()]));
    assert!(excluded("target/debug/app", &["target/".to_string()]));
    assert!(!included("README.md", &["*.rs".to_string()]));
}

#[test]
fn component_glob_backtracks_to_the_last_star() {
    assert!(glob_match_component("a*b*c", "axxbyyc"));
    assert!(glob_match_component("*.rs", "main.rs"));
    assert!(!glob_match_component("*.rs", "main.rc"));
    assert!(glob_match_component("?ain.*", "main.rs"));
}

#[test]
fn slash_crossing_glob_matches_across_components() {
    assert!(glob_matches("docs/*", "docs/a/b"));
    assert!(!glob_matches("docs/?", "docs/ab"));
}

#[test]
fn rules_mean_the_same_with_a_trailing_slash_or_leading_dot_slash() {
    let rules = |r: &str| vec![r.to_string()];
    for path in ["target", "target/debug/app", "src/target", "targets"] {
        let plain = excluded(path, &rules("target"));
        assert_eq!(excluded(path, &rules("target/")), plain);
        assert_eq!(excluded(path, &rules("./target")), plain);
    }
    assert!(excluded("target/debug/app", &rules("target")));
}

#[test]
fn component_matcher_agrees_with_glob_on_texts_without_stars() {
    let patterns = ["*", "a*b", "?x*", "*.rs", "a?c", "**", "", "*a*a*"];
    let texts = ["", "ab", "axb", "main.rs", "abc", "aaa", "x.rs.rs"];
    for p in patterns {
        for t in texts {
            assert_eq!(glob_match_component(p, t), glob_matches(p, t), "{p} {t}");
        }
    }
    assert!(!glob_match_component("*b", "*ab"));
    assert!(glob_matches("*b", "*ab"));
}
