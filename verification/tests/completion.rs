use tinyshell::completion::{common_prefix, complete};
use tinyshell::shell::Shell;

#[test]
fn test_test() {
    let mut shell = Shell::default();
    let line = "git remote set";
    shell
        .completions
        .insert("git".to_string(), "test".to_string());

    complete(&shell, line);
}

#[test]
fn lcp_of_nested_prefixes() {
    let cands = ["xyz_foo", "xyz_foo_bar", "xyz_foo_bar_baz"].map(String::from);
    assert_eq!(common_prefix(&cands), "xyz_foo")
}

#[test]
fn lcp_of_equal_length_matches() {
    let cands = ["xyz_foo", "xyz_cat", "xyz_zoo"].map(String::from);
    assert_eq!(common_prefix(&cands), "xyz_")
}

#[test]
fn lcp_of_single_candidate() {
    let cands = [String::from("readme.txt")];
    assert_eq!(common_prefix(&cands), "readme.txt")
}

#[test]
fn lcp_of_nothing() {
    assert_eq!(common_prefix(&[]), "")
}
