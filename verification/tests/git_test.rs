use sexy_claude::git::{branch_from_output, dirty_count_from_output, GitInfo};

#[test]
fn test_display_clean() {
    let info = GitInfo {
        branch: Some("main".to_string()),
        dirty_count: 0,
    };
    assert_eq!(info.display(), Some(" main".to_string()));
    assert!(!info.is_dirty());
}

#[test]
fn test_display_dirty() {
    let info = GitInfo {
        branch: Some("feature/foo".to_string()),
        dirty_count: 3,
    };
    assert_eq!(info.display(), Some(" feature/foo *3".to_string()));
    assert!(info.is_dirty());
}

#[test]
fn test_display_no_branch() {
    let info = GitInfo::default();
    assert_eq!(info.display(), None);
}

#[test]
fn git_display_no_branch_even_when_dirty() {
    let info = GitInfo { branch: None, dirty_count: 12 };
    assert_eq!(info.display(), None);
    assert!(info.is_dirty());
    let info = GitInfo { branch: Some("dev".to_string()), dirty_count: 120 };
    assert_eq!(info.display(), Some(" dev *120".to_string()));
}

#[test]
fn git_branch_from_output() {
    assert_eq!(branch_from_output("main\n"), Some("main".to_string()));
    assert_eq!(branch_from_output("  feature/x \r\n"), Some("feature/x".to_string()));
    assert_eq!(branch_from_output(""), None);
    assert_eq!(branch_from_output(" \n\t"), None);
}

#[test]
fn git_dirty_count_from_output() {
    assert_eq!(dirty_count_from_output(""), 0);
    assert_eq!(dirty_count_from_output(" M src/a.rs\n?? b.txt\n"), 2);
    assert_eq!(dirty_count_from_output(" M a\n\n\nM  b\r\n"), 2);
}
