use gemini_git_browser::repo::{
    branch_ref, heads_dir, join_path, names_repo, readme_section, repo_name, Blob, ItemType,
    NamespaceDirs, NamespaceRepos, RepoDetails, RepoDir, RepoError, TreeItem, TreeResponse,
};
use gemini_git_browser::util::Config;

fn strings(items: &[&str]) -> Vec<String> {
    items.iter().map(|s| String::from(*s)).collect()
}

fn config(allowed: &[&str]) -> Config {
    Config { title: String::from("site"), allowed: strings(allowed) }
}

fn repo_dir(allowed: &[&str]) -> RepoDir {
    RepoDir::new(String::from("/srv/git"), config(allowed))
}

fn item(name: &str, item_type: ItemType, content: Option<&str>) -> TreeItem {
    TreeItem {
        id: format!("id-{}", name),
        name: String::from(name),
        item_type,
        icon: String::new(),
        content_string: content.map(String::from),
    }
}

fn pairs(entries: &Vec<NamespaceRepos>) -> Vec<(String, Vec<String>)> {
    entries.iter().map(|e| (e.name.clone(), e.repos.clone())).collect()
}

#[test]
fn default_config_allows_nothing() {
    let config = Config::default();
    assert_eq!(config.title, "");
    assert!(config.allowed.is_empty());
    assert!(!config.check_dir(""));
    assert!(!config.check_dir("ns"));
}

#[test]
fn config_allows_what_it_lists() {
    let config = config(&["ns", "ns/repo.git", ""]);
    assert!(config.check_dir("ns"));
    assert!(config.check_dir("ns/repo.git"));
    assert!(config.check_dir(""));
    assert!(!config.check_dir("ns/"));
    assert!(!config.check_dir("NS"));
    assert!(!config.check_dir("ns/repo"));
}

#[test]
fn items_are_picked_by_type() {
    let response = TreeResponse {
        tree: vec![
            item("src", ItemType::Tree, None),
            item("a.rs", ItemType::Blob, None),
            item("docs", ItemType::Tree, None),
            item("b.rs", ItemType::Blob, None),
        ],
        readme_text: None,
    };
    let trees: Vec<&str> =
        response.get_by_type(ItemType::Tree).iter().map(|i| i.name.as_str()).collect();
    let blobs: Vec<&str> =
        response.get_by_type(ItemType::Blob).iter().map(|i| i.name.as_str()).collect();
    assert_eq!(trees, vec!["src", "docs"]);
    assert_eq!(blobs, vec!["a.rs", "b.rs"]);
    let empty = TreeResponse { tree: vec![], readme_text: None };
    assert!(empty.get_by_type(ItemType::Tree).is_empty());
}

#[test]
fn readme_section_has_header_and_hypertext() {
    assert_eq!(
        readme_section(b"# Title\nSee [docs](http://d)"),
        Some(String::from(
            "\r\n\r\n\r\n# \u{1F4D6} README\r\n\r\n\r\n# Title\r\nSee docs[1]\r\n=> http://d [1] docs"
        ))
    );
    assert_eq!(
        readme_section(b""),
        Some(String::from("\r\n\r\n\r\n# \u{1F4D6} README\r\n\r\n\r\n"))
    );
}

#[test]
fn readme_section_is_left_out_where_content_is_no_text() {
    assert_eq!(readme_section(&[0x23, 0x20, 0xff, 0xfe]), None);
}

#[test]
fn entry_of_a_tree_becomes_an_item() {
    let tree = TreeItem::from_entry(
        String::from("abc"),
        String::from("src"),
        Some(ItemType::Tree),
        None,
    )
    .unwrap();
    assert_eq!(tree.id, "abc");
    assert_eq!(tree.name, "src");
    assert_eq!(tree.item_type, ItemType::Tree);
    assert_eq!(tree.icon, "\u{1F4C1}");
    assert_eq!(tree.content_string, None);
    let blob = TreeItem::from_entry(
        String::from("def"),
        String::from("main.rs"),
        Some(ItemType::Blob),
        Some(b"[a](b)"),
    )
    .unwrap();
    assert_eq!(blob.item_type, ItemType::Blob);
    assert_eq!(blob.icon, "\u{1F4C4}");
    assert_eq!(blob.content_string, None);
}

#[test]
fn entry_that_is_no_tree_and_no_file_is_no_item() {
    assert!(TreeItem::from_entry(String::from("abc"), String::from("sub"), None, None).is_none());
    assert!(
        TreeItem::from_entry(String::from("abc"), String::from("README.md"), None, Some(b"x"))
            .is_none()
    );
}

#[test]
fn readme_entry_carries_its_section() {
    assert!(TreeItem::is_readme("README.md"));
    assert!(!TreeItem::is_readme("readme.md"));
    assert!(!TreeItem::is_readme("README.md "));
    let readme = TreeItem::from_entry(
        String::from("123"),
        String::from("README.md"),
        Some(ItemType::Blob),
        Some(b"[a](b)"),
    )
    .unwrap();
    assert_eq!(
        readme.content_string,
        Some(String::from("\r\n\r\n\r\n# \u{1F4D6} README\r\n\r\n\r\na[1]\r\n=> b [1] a"))
    );
    let unread = TreeItem::from_entry(
        String::from("123"),
        String::from("README.md"),
        Some(ItemType::Tree),
        None,
    )
    .unwrap();
    assert_eq!(unread.content_string, None);
    let binary = TreeItem::from_entry(
        String::from("123"),
        String::from("README.md"),
        Some(ItemType::Blob),
        Some(&[0xff]),
    )
    .unwrap();
    assert_eq!(binary.content_string, None);
}

#[test]
fn response_shows_the_readme_of_its_items() {
    let response = TreeResponse::from_items(vec![
        item("src", ItemType::Tree, None),
        item("README.md", ItemType::Blob, Some("read me")),
        item("z.rs", ItemType::Blob, Some("not shown")),
    ]);
    assert_eq!(response.tree.len(), 3);
    assert_eq!(response.tree[1].name, "README.md");
    assert_eq!(response.readme_text, Some(String::from("read me")));
    let none = TreeResponse::from_items(vec![item("src", ItemType::Tree, Some("x"))]);
    assert_eq!(none.readme_text, None);
    let empty = TreeResponse::from_items(vec![]);
    assert_eq!(empty.readme_text, None);
    assert!(empty.tree.is_empty());
}

#[test]
fn last_readme_item_decides() {
    let response = TreeResponse::from_items(vec![
        item("README.md", ItemType::Blob, Some("first")),
        item("README.md", ItemType::Blob, Some("second")),
        item("a", ItemType::Blob, None),
    ]);
    assert_eq!(response.readme_text, Some(String::from("second")));
    let unread = TreeResponse::from_items(vec![
        item("README.md", ItemType::Blob, Some("first")),
        item("README.md", ItemType::Tree, None),
    ]);
    assert_eq!(unread.readme_text, None);
}

#[test]
fn details_hold_what_they_are_given() {
    let details = RepoDetails::new(
        String::from("main"),
        strings(&["main", "dev"]),
        TreeResponse { tree: vec![], readme_text: Some(String::from("r")) },
    );
    assert_eq!(details.active_branch, "main");
    assert_eq!(details.branches, strings(&["main", "dev"]));
    assert_eq!(details.tree_response.readme_text, Some(String::from("r")));
}

#[test]
fn blob_is_served_by_what_it_holds() {
    assert_eq!(Blob { is_binary: true, content: vec![0, 1] }.mime_type(), "application/octet-stream");
    assert_eq!(Blob { is_binary: false, content: vec![b'a'] }.mime_type(), "text/plain");
}

#[test]
fn paths_are_joined_with_a_slash() {
    assert_eq!(join_path("/srv/git", "ns/repo.git"), "/srv/git/ns/repo.git");
    assert_eq!(join_path("", ""), "/");
    assert_eq!(branch_ref("main"), "refs/heads/main");
    assert_eq!(branch_ref("feature/x"), "refs/heads/feature/x");
    assert_eq!(heads_dir("/srv/git/ns/repo.git"), "/srv/git/ns/repo.git/refs/heads");
}

#[test]
fn repository_is_named_by_its_second_segment() {
    assert_eq!(repo_name("ns/repo.git"), "repo");
    assert_eq!(repo_name("ns/repo"), "repo");
    assert_eq!(repo_name("ns/repo.git.git"), "repo");
    assert_eq!(repo_name("ns/.git"), "");
    assert_eq!(repo_name("ns/repo.git/more"), "repo");
    assert_eq!(repo_name("ns/a.gitx"), "a.gitx");
    assert_eq!(repo_name("ns/git"), "git");
    assert_eq!(repo_name("/x.git"), "x");
    assert_eq!(repo_name("ns/"), "");
}

#[test]
fn repository_name_is_what_trimming_the_second_segment_gives() {
    for path in ["ns/repo.git", "a/b", "a/.git.git", "a/b.git/c.git", "/", "a/git.gi", "x/y.GIT"] {
        let segments: Vec<&str> = path.split("/").collect();
        assert_eq!(repo_name(path), segments[1].trim_end_matches(".git"), "path {:?}", path);
    }
}

#[test]
fn path_names_a_repository_where_it_has_a_slash() {
    assert!(names_repo("ns/repo.git"));
    assert!(names_repo("/"));
    assert!(!names_repo("ns"));
    assert!(!names_repo(""));
}

#[test]
fn allowed_repository_has_a_directory() {
    let dir = repo_dir(&["ns", "ns/repo.git"]);
    assert_eq!(dir.dir_path, "/srv/git");
    assert_eq!(dir.config.title, "site");
    assert_eq!(dir.get_repo_dir("ns/repo.git").unwrap(), "/srv/git/ns/repo.git");
    assert_eq!(dir.get_repo_dir("ns").unwrap(), "/srv/git/ns");
}

#[test]
fn repository_that_is_not_allowed_has_none() {
    let dir = repo_dir(&["ns", "ns/repo.git"]);
    match dir.get_repo_dir("ns/other.git") {
        Err(RepoError::NoSuchRepo(path)) => assert_eq!(path, "ns/other.git"),
        other => panic!("{:?}", other),
    }
    assert_eq!(
        dir.get_repo_dir("../etc").unwrap_err().message(),
        "No such repo: ../etc"
    );
}

#[test]
fn errors_say_what_went_wrong() {
    assert_eq!(RepoError::NoSuchRepo(String::from("a/b")).message(), "No such repo: a/b");
    assert_eq!(
        RepoError::ReadDir(String::from("permission denied")).message(),
        "Error reading REPO_DIR: permission denied"
    );
}

#[test]
fn namespace_lists_its_allowed_repositories() {
    let dir = repo_dir(&["ns", "ns/a.git", "ns/c.git", "other/b.git"]);
    let found = strings(&["a.git", "b.git", "c.git", "a.git"]);
    assert_eq!(dir.get_ns_repos("ns", &found).unwrap(), strings(&["a.git", "c.git", "a.git"]));
    assert_eq!(dir.get_ns_repos("ns", &vec![]).unwrap(), Vec::<String>::new());
}

#[test]
fn namespace_that_is_not_allowed_lists_nothing() {
    let dir = repo_dir(&["ns/a.git"]);
    match dir.get_ns_repos("ns", &strings(&["a.git"])) {
        Err(RepoError::NoSuchRepo(path)) => assert_eq!(path, "ns"),
        other => panic!("{:?}", other),
    }
}

#[test]
fn repositories_are_listed_by_namespace() {
    let dir = repo_dir(&["one", "one/a.git", "two", "two/b.git", "two/c.git", "hidden/d.git"]);
    let namespaces = vec![
        NamespaceDirs { name: String::from("one"), dirs: Ok(strings(&["a.git", "x.git"])) },
        NamespaceDirs { name: String::from("hidden"), dirs: Ok(strings(&["d.git"])) },
        NamespaceDirs { name: String::from("two"), dirs: Ok(strings(&["c.git", "b.git"])) },
    ];
    assert_eq!(
        pairs(&dir.get_repos(&namespaces).unwrap()),
        vec![
            (String::from("one"), strings(&["a.git"])),
            (String::from("two"), strings(&["c.git", "b.git"])),
        ]
    );
    assert!(dir.get_repos(&vec![]).unwrap().is_empty());
}

#[test]
fn namespace_that_comes_twice_is_listed_once() {
    let dir = repo_dir(&["one", "one/a.git", "one/b.git", "two"]);
    let namespaces = vec![
        NamespaceDirs { name: String::from("one"), dirs: Ok(strings(&["a.git"])) },
        NamespaceDirs { name: String::from("two"), dirs: Ok(strings(&["z.git"])) },
        NamespaceDirs { name: String::from("one"), dirs: Ok(strings(&["b.git"])) },
    ];
    assert_eq!(
        pairs(&dir.get_repos(&namespaces).unwrap()),
        vec![(String::from("one"), strings(&["b.git"])), (String::from("two"), strings(&[]))]
    );
}

#[test]
fn namespace_that_cannot_be_read_is_an_error() {
    let dir = repo_dir(&["one", "two", "two/b.git", "three"]);
    let namespaces = vec![
        NamespaceDirs { name: String::from("hidden"), dirs: Err(String::from("not asked")) },
        NamespaceDirs { name: String::from("two"), dirs: Ok(strings(&["b.git"])) },
        NamespaceDirs { name: String::from("one"), dirs: Err(String::from("gone")) },
        NamespaceDirs { name: String::from("three"), dirs: Err(String::from("later")) },
    ];
    match dir.get_repos(&namespaces) {
        Err(RepoError::ReadDir(reason)) => assert_eq!(reason, "gone"),
        other => panic!("{:?}", other),
    }
    let hidden_only =
        vec![NamespaceDirs { name: String::from("hidden"), dirs: Err(String::from("x")) }];
    assert!(dir.get_repos(&hidden_only).unwrap().is_empty());
}
