use homeostat::gitinfo::{head_commit, under_plans};

fn some(s: &str) -> Option<String> {
    Some(s.to_string())
}

#[test]
fn a_clean_worktree_root_has_its_head() {
    assert_eq!(head_commit(some("/h"), some("/h"), some("abc\n"), some("")), some("abc"));
}

#[test]
fn a_nested_directory_has_no_commit_of_its_own() {
    assert_eq!(head_commit(some("/h"), some("/h/nested"), some("abc\n"), some("")), None);
}

#[test]
fn what_git_cannot_tell_is_no_commit() {
    assert_eq!(head_commit(None, some("/h"), some("abc"), some("")), None);
    assert_eq!(head_commit(some("/h"), None, some("abc"), some("")), None);
    assert_eq!(head_commit(some("/h"), some("/h"), None, some("")), None);
    assert_eq!(head_commit(some("/h"), some("/h"), some("abc"), None), None);
}

#[test]
fn an_edit_marks_the_head_dirty() {
    let status = " M zones.toml\n";
    assert_eq!(
        head_commit(some("/h"), some("/h"), some("abc\n"), some(status)),
        some("abc-dirty")
    );
    let mixed = "?? plans/pending/x.plan\n M units/probe.toml\n";
    assert_eq!(
        head_commit(some("/h"), some("/h"), some("abc\n"), some(mixed)),
        some("abc-dirty")
    );
}

#[test]
fn plans_never_count() {
    // An edited plan comes with a leading blank, an added one without.
    for status in [
        " M plans/pending/x.plan\n",
        "?? plans/\n",
        "?? plans/pending/x.plan\n?? plans/pending/hus-å.plan\n",
        "R  plans/a.plan -> plans/b.plan\r\n",
    ] {
        assert_eq!(head_commit(some("/h"), some("/h"), some("abc"), some(status)), some("abc"));
    }
}

#[test]
fn a_rename_counts_unless_both_sides_are_plans() {
    assert!(under_plans("R  plans/a -> plans/b"));
    assert!(!under_plans("R  plans/a -> units/b"));
    assert!(!under_plans("R  units/a -> plans/b"));
    assert!(!under_plans("?? \"plans/quoted\""));
    assert!(!under_plans("??"));
    assert!(!under_plans("å"));
    // The path begins at the fourth byte, where a character begins there.
    assert!(under_plans("é plans/x"));
    assert!(!under_plans("aaé plans/x"));
}
