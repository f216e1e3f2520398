use gemini_git_browser::route::{can_route, route, segments_named, Route};

fn strings(items: &[&str]) -> Vec<String> {
    items.iter().map(|s| String::from(*s)).collect()
}

#[test]
fn empty_segments_name_nothing() {
    assert_eq!(segments_named(&strings(&["", "ns", "", "repo", ""])), strings(&["ns", "repo"]));
    assert_eq!(segments_named(&strings(&["", ""])), Vec::<String>::new());
    assert_eq!(segments_named(&vec![]), Vec::<String>::new());
}

#[test]
fn one_segment_asks_for_a_namespace() {
    match route(&strings(&["ns"])) {
        Route::RepoList { path } => assert_eq!(path, "ns"),
        other => panic!("{:?}", other),
    }
    match route(&strings(&["", "branch", ""])) {
        Route::RepoList { path } => assert_eq!(path, "branch"),
        other => panic!("{:?}", other),
    }
}

#[test]
fn two_segments_ask_for_a_repository() {
    match route(&strings(&["ns", "repo.git"])) {
        Route::Repo { path } => assert_eq!(path, "ns/repo.git"),
        other => panic!("{:?}", other),
    }
}

#[test]
fn branch_tree_and_blob_are_asked_for_by_name() {
    match route(&strings(&["ns", "repo.git", "branch", "main"])) {
        Route::Branch { repo_path, branch } => {
            assert_eq!((repo_path.as_str(), branch.as_str()), ("ns/repo.git", "main"))
        }
        other => panic!("{:?}", other),
    }
    match route(&strings(&["ns", "repo.git", "tree", "abc123", "extra"])) {
        Route::Tree { repo_path, hash } => {
            assert_eq!((repo_path.as_str(), hash.as_str()), ("ns/repo.git", "abc123"))
        }
        other => panic!("{:?}", other),
    }
    match route(&strings(&["ns", "", "repo.git", "blob", "def456"])) {
        Route::Blob { repo_path, hash } => {
            assert_eq!((repo_path.as_str(), hash.as_str()), ("ns/repo.git", "def456"))
        }
        other => panic!("{:?}", other),
    }
}

#[test]
fn other_paths_lead_nowhere() {
    assert!(matches!(route(&strings(&["ns", "repo.git", "commits"])), Route::NotFound));
    assert!(matches!(route(&strings(&["ns", "repo.git", "Tree", "abc"])), Route::NotFound));
    assert!(matches!(route(&strings(&["a", "b", "c", "d", "e"])), Route::NotFound));
}

#[test]
fn paths_that_cannot_be_routed_are_told_apart() {
    assert!(can_route(&strings(&["ns"])));
    assert!(can_route(&strings(&["ns", "repo.git"])));
    assert!(can_route(&strings(&["ns", "repo.git", "other"])));
    assert!(can_route(&strings(&["ns", "repo.git", "tree", "abc"])));
    assert!(!can_route(&vec![]));
    assert!(!can_route(&strings(&["", ""])));
    assert!(!can_route(&strings(&["ns", "repo.git", "tree"])));
    assert!(!can_route(&strings(&["ns", "repo.git", "branch", ""])));
    assert!(!can_route(&strings(&["ns", "repo.git", "blob"])));
}
