//! What a repository shows: the items of a tree, the README that goes with
//! them, and the repositories that the site may list.

use vstd::prelude::*;

use vstd::utf8::{decode_utf8, valid_utf8};

use crate::gemtext::gemtext;
use crate::text::{
    chars_of, line_views, same_text, split, split_chars, string_of_range,
    string_views,
};
use crate::util::{md_bytes_to_gemtext, Config};

verus! {

/// What an item of a tree is: a tree of its own, or a file.
#[derive(Clone, Copy, Debug, PartialEq, Eq, Structural)]
pub enum ItemType {
    Tree,
    Blob,
}

/// One item of a tree.
#[derive(Debug)]
pub struct TreeItem {
    pub id: String,
    pub name: String,
    pub item_type: ItemType,
    pub icon: String,
    pub content_string: Option<String>,
}

/// The items of a tree, and the README to show with them.
#[derive(Debug)]
pub struct TreeResponse {
    pub tree: Vec<TreeItem>,
    pub readme_text: Option<String>,
}

/// The content of a file.
pub struct Blob {
    pub is_binary: bool,
    pub content: Vec<u8>,
}

/// A repository's branches, and the tree of the active one.
#[derive(Debug)]
pub struct RepoDetails {
    pub active_branch: String,
    pub branches: Vec<String>,
    pub tree_response: TreeResponse,
}

/// The directory that holds the repositories, and the site's configuration.
pub struct RepoDir {
    pub dir_path: String,
    pub config: Config,
}

/// The name of the file whose content is shown with a tree.
pub open spec fn readme_name() -> Seq<char> {
    "README.md"@
}

/// What stands above a README: blank lines, and a heading.
pub open spec fn readme_header() -> Seq<char> {
    "\r\n\r\n\r\n# \u{1F4D6} README\r\n\r\n\r\n"@
}

/// The sign of a tree.
pub open spec fn tree_icon() -> Seq<char> {
    "\u{1F4C1}"@
}

/// The sign of a file.
pub open spec fn blob_icon() -> Seq<char> {
    "\u{1F4C4}"@
}

/// The sign of an item of type `item_type`.
pub open spec fn icon_of(item_type: ItemType) -> Seq<char> {
    match item_type {
        ItemType::Tree => tree_icon(),
        ItemType::Blob => blob_icon(),
    }
}

/// The README section for a file with this content: the header and the
/// content as line-oriented hypertext. There is none where the content is
/// not text.
pub open spec fn readme_of_content(content: Seq<u8>) -> Option<Seq<char>> {
    if valid_utf8(content) {
        Some(readme_header() + gemtext(decode_utf8(content)))
    } else {
        None
    }
}

/// What an item named `name` shows as its content: a README section, where
/// this is the README and its content was read and is text.
pub open spec fn content_of(name: Seq<char>, blob: Option<Seq<u8>>) -> Option<Seq<char>> {
    match blob {
        Some(content) if name == readme_name() => readme_of_content(content),
        _ => None,
    }
}

/// The text of a string that may be missing.
pub open spec fn text_view(text: Option<String>) -> Option<Seq<char>> {
    match text {
        Some(s) => Some(s@),
        None => None,
    }
}

/// The README to show with `items`: the content of the last item named as
/// a README is, if there is such an item and it has a content.
pub open spec fn readme_of_items(items: Seq<TreeItem>) -> Option<Seq<char>>
    decreases items.len(),
{
    if items.len() == 0 {
        None
    } else if items.last().name@ == readme_name() {
        text_view(items.last().content_string)
    } else {
        readme_of_items(items.drop_last())
    }
}

/// The README section for a file with the content `content`, if that is
/// text.
pub fn readme_section(content: &[u8]) -> (section: Option<String>)
    ensures
        text_view(section) == readme_of_content(content@),
{
    match md_bytes_to_gemtext(content) {
        Ok(text) => Some(
            String::from_str("\r\n\r\n\r\n# \u{1F4D6} README\r\n\r\n\r\n").concat(
                text.as_str(),
            ),
        ),
        Err(_) => None,
    }
}

impl TreeItem {
    /// Whether an entry of this name is the README, whose content is to be
    /// read.
    pub fn is_readme(name: &str) -> (readme: bool)
        ensures
            readme == (name@ == readme_name()),
    {
        same_text(name, "README.md")
    }

    /// The item for one entry of a tree: its id, its name, what kind of
    /// object it is (`None` for what is neither a tree nor a file), and the
    /// content of the file if it was read. Only trees and files are items.
    pub fn from_entry(
        id: String,
        name: String,
        kind: Option<ItemType>,
        blob: Option<&[u8]>,
    ) -> (item: Option<TreeItem>)
        ensures
            item is Some <==> kind is Some,
            item matches Some(it) ==> {
                &&& it.id == id
                &&& it.name == name
                &&& Some(it.item_type) == kind
                &&& it.icon@ == icon_of(it.item_type)
                &&& text_view(it.content_string) == content_of(
                    name@,
                    match blob {
                        Some(content) => Some(content@),
                        None => None,
                    },
                )
            },
    {
        let content_string = match blob {
            Some(content) => {
                if TreeItem::is_readme(name.as_str()) {
                    readme_section(content)
                } else {
                    None
                }
            },
            None => None,
        };
        match kind {
            Some(ItemType::Tree) => Some(
                TreeItem {
                    id,
                    name,
                    item_type: ItemType::Tree,
                    icon: String::from_str("\u{1F4C1}"),
                    content_string,
                },
            ),
            Some(ItemType::Blob) => Some(
                TreeItem {
                    id,
                    name,
                    item_type: ItemType::Blob,
                    icon: String::from_str("\u{1F4C4}"),
                    content_string,
                },
            ),
            None => None,
        }
    }
}

/// The items of `tree` that are of type `item_type`, in their order.
pub open spec fn items_of_type(tree: Seq<TreeItem>, item_type: ItemType) -> Seq<TreeItem> {
    tree.filter(|item: TreeItem| item.item_type == item_type)
}

impl TreeResponse {
    /// The response for a tree with these items: the items as they came,
    /// and the README that goes with them.
    pub fn from_items(items: Vec<TreeItem>) -> (response: TreeResponse)
        ensures
            response.tree == items,
            text_view(response.readme_text) == readme_of_items(items@),
    {
        let mut readme_text: Option<String> = None;
        let mut i: usize = items.len();
        assert(items@.take(i as int) == items@);
        while i > 0
            invariant_except_break
                readme_text is None,
                readme_of_items(items@) == readme_of_items(items@.take(i as int)),
            invariant
                i <= items.len(),
            ensures
                text_view(readme_text) == readme_of_items(items@),
            decreases i,
        {
            proof {
                assert(items@.take(i as int).last() == items@[i - 1]);
                assert(items@.take(i as int).drop_last() == items@.take(i - 1));
            }
            i -= 1;
            if TreeItem::is_readme(items[i].name.as_str()) {
                readme_text =
                match &items[i].content_string {
                    Some(text) => Some(text.clone()),
                    None => None,
                };
                break ;
            }
        }
        TreeResponse { tree: items, readme_text }
    }

    /// The items of the tree that are of type `item_type`, in their order.
    pub fn get_by_type(&self, item_type: ItemType) -> (items: Vec<&TreeItem>)
        ensures
            items@.map_values(|item: &TreeItem| *item) == items_of_type(self.tree@, item_type),
    {
        let mut items: Vec<&TreeItem> = Vec::new();
        let mut i: usize = 0;
        proof {
            reveal(Seq::filter);
            assert(self.tree@.take(0) == Seq::<TreeItem>::empty());
        }
        while i < self.tree.len()
            invariant
                i <= self.tree.len(),
                items@.map_values(|item: &TreeItem| *item) == items_of_type(
                    self.tree@.take(i as int),
                    item_type,
                ),
            decreases self.tree.len() - i,
        {
            let ghost done = items@.map_values(|item: &TreeItem| *item);
            proof {
                let wanted = |item: TreeItem| item.item_type == item_type;
                assert(self.tree@.take(i + 1) == self.tree@.take(i as int).push(
                    self.tree@[i as int],
                ));
                self.tree@.take(i as int).lemma_filter_push(self.tree@[i as int], wanted);
            }
            if self.tree[i].item_type == item_type {
                items.push(&self.tree[i]);
                assert(items@.map_values(|item: &TreeItem| *item) == done.push(
                    self.tree@[i as int],
                ));
            }
            i += 1;
        }
        assert(self.tree@.take(self.tree.len() as int) == self.tree@);
        items
    }
}

/// Why a repository or a listing cannot be shown.
#[derive(Debug)]
pub enum RepoError {
    /// The configuration does not allow this path.
    NoSuchRepo(String),
    /// A directory of repositories could not be read; the reason is given.
    ReadDir(String),
}

/// What `RepoError::message` says before the path of a repository that is
/// not allowed.
pub open spec fn no_such_repo() -> Seq<char> {
    "No such repo: "@
}

/// What `RepoError::message` says before the reason why a directory could
/// not be read.
pub open spec fn read_dir_failed() -> Seq<char> {
    "Error reading REPO_DIR: "@
}

impl RepoError {
    /// The error in words.
    pub fn message(&self) -> (text: String)
        ensures
            match *self {
                RepoError::NoSuchRepo(path) => text@ == no_such_repo() + path@,
                RepoError::ReadDir(reason) => text@ == read_dir_failed() + reason@,
            },
    {
        match self {
            RepoError::NoSuchRepo(path) => String::from_str("No such repo: ").concat(
                path.as_str(),
            ),
            RepoError::ReadDir(reason) => String::from_str("Error reading REPO_DIR: ").concat(
                reason.as_str(),
            ),
        }
    }
}

/// The path of `name` inside `dir`: the two with a slash between them.
pub open spec fn path_join(dir: Seq<char>, name: Seq<char>) -> Seq<char> {
    dir + seq!['/'] + name
}

/// The path of `name` inside `dir`.
pub fn join_path(dir: &str, name: &str) -> (path: String)
    ensures
        path@ == path_join(dir@, name@),
{
    proof {
        reveal_strlit("/");
        assert("/"@ == seq!['/']);
    }
    String::from_str(dir).concat("/").concat(name)
}

/// Of the directories `dirs` found in the namespace `ns`, those that the
/// configuration lets be shown, in their order.
pub open spec fn shown_repos(config: Config, ns: Seq<char>, dirs: Seq<Seq<char>>) -> Seq<
    Seq<char>,
> {
    dirs.filter(|repo: Seq<char>| config.allows(path_join(ns, repo)))
}

/// Keeps of `dirs` what the configuration lets be shown in the namespace
/// `ns`.
fn filter_repos(config: &Config, ns: &str, dirs: &Vec<String>) -> (repos: Vec<String>)
    ensures
        string_views(repos@) == shown_repos(*config, ns@, string_views(dirs@)),
{
    let mut repos: Vec<String> = Vec::new();
    let ghost all = string_views(dirs@);
    let mut i: usize = 0;
    proof {
        reveal(Seq::filter);
        assert(all.take(0) == Seq::<Seq<char>>::empty());
    }
    while i < dirs.len()
        invariant
            i <= dirs.len(),
            all == string_views(dirs@),
            string_views(repos@) == shown_repos(*config, ns@, all.take(i as int)),
        decreases dirs.len() - i,
    {
        let ghost done = string_views(repos@);
        proof {
            let shown = |repo: Seq<char>| config.allows(path_join(ns@, repo));
            assert(all.take(i + 1) == all.take(i as int).push(all[i as int]));
            all.take(i as int).lemma_filter_push(all[i as int], shown);
        }
        let repo_path = join_path(ns, dirs[i].as_str());
        if config.check_dir(repo_path.as_str()) {
            repos.push(dirs[i].clone());
            assert(string_views(repos@) == done.push(all[i as int]));
        }
        i += 1;
    }
    assert(all.take(dirs.len() as int) == all);
    repos
}

/// What reading the directory of one namespace gave: the directories found
/// in it, or the reason why it could not be read.
#[derive(Debug)]
pub struct NamespaceDirs {
    pub name: String,
    pub dirs: Result<Vec<String>, String>,
}

/// The repositories that are listed under one namespace.
#[derive(Debug)]
pub struct NamespaceRepos {
    pub name: String,
    pub repos: Vec<String>,
}

/// The list as a map from each namespace to its repositories. Where a name
/// came twice, the later entry would count.
pub open spec fn listing(entries: Seq<NamespaceRepos>) -> Map<Seq<char>, Seq<Seq<char>>>
    decreases entries.len(),
{
    if entries.len() == 0 {
        Map::empty()
    } else {
        listing(entries.drop_last()).insert(
            entries.last().name@,
            string_views(entries.last().repos@),
        )
    }
}

/// No namespace has two entries.
pub open spec fn distinct_names(entries: Seq<NamespaceRepos>) -> bool {
    forall|i: int, j: int| 0 <= i < j < entries.len() ==> entries[i].name@ != entries[j].name@
}

/// The namespace at `i` is allowed, and its directory could not be read.
pub open spec fn fails_at(config: Config, namespaces: Seq<NamespaceDirs>, i: int) -> bool {
    &&& 0 <= i < namespaces.len()
    &&& config.allows(namespaces[i].name@)
    &&& namespaces[i].dirs is Err
}

/// What is listed for `namespaces`: each allowed namespace that could be
/// read, with the directories in it that the configuration lets be shown.
/// Where a namespace comes twice, the later one counts.
pub open spec fn listed(config: Config, namespaces: Seq<NamespaceDirs>) -> Map<
    Seq<char>,
    Seq<Seq<char>>,
>
    decreases namespaces.len(),
{
    if namespaces.len() == 0 {
        Map::empty()
    } else {
        let before = listed(config, namespaces.drop_last());
        let last = namespaces.last();
        match last.dirs {
            Ok(dirs) if config.allows(last.name@) => before.insert(
                last.name@,
                shown_repos(config, last.name@, string_views(dirs@)),
            ),
            _ => before,
        }
    }
}

/// Putting an entry in the place of one with the same name is, for the map,
/// the same as adding it.
proof fn lemma_listing_update(entries: Seq<NamespaceRepos>, j: int, entry: NamespaceRepos)
    requires
        0 <= j < entries.len(),
        distinct_names(entries),
        entries[j].name@ == entry.name@,
    ensures
        distinct_names(entries.update(j, entry)),
        listing(entries.update(j, entry)) == listing(entries).insert(
            entry.name@,
            string_views(entry.repos@),
        ),
    decreases entries.len(),
{
    let updated = entries.update(j, entry);
    let n = entries.len() as int;
    if j == n - 1 {
        assert(updated.drop_last() == entries.drop_last());
    } else {
        assert(updated.drop_last() == entries.drop_last().update(j, entry));
        lemma_listing_update(entries.drop_last(), j, entry);
        assert(entries[j].name@ != entries[n - 1].name@);
    }
    assert(listing(updated) =~= listing(entries).insert(entry.name@, string_views(entry.repos@)));
}

/// Puts `entry` into the list: in the place of the entry with its name, if
/// there is one, else at the end.
fn put_entry(entries: &mut Vec<NamespaceRepos>, entry: NamespaceRepos)
    requires
        distinct_names(old(entries)@),
    ensures
        distinct_names(final(entries)@),
        listing(final(entries)@) == listing(old(entries)@).insert(
            entry.name@,
            string_views(entry.repos@),
        ),
{
    let mut j: usize = 0;
    while j < entries.len()
        invariant
            j <= entries.len(),
            entries@ == old(entries)@,
            distinct_names(entries@),
            forall|k: int| 0 <= k < j ==> entries@[k].name@ != entry.name@,
        decreases entries.len() - j,
    {
        if entries[j].name == entry.name {
            proof {
                lemma_listing_update(entries@, j as int, entry);
            }
            entries.set(j, entry);
            return ;
        }
        j += 1;
    }
    proof {
        assert(entries@.push(entry).drop_last() == entries@);
    }
    entries.push(entry);
}

impl RepoDir {
    /// The directory `dir_path` of repositories under the configuration
    /// `config`.
    pub fn new(dir_path: String, config: Config) -> (repo_dir: RepoDir)
        ensures
            repo_dir.dir_path == dir_path,
            repo_dir.config == config,
    {
        RepoDir { dir_path, config }
    }

    /// Where the repository or namespace `repo_path` lies on disk. It is an
    /// error to ask for a path that the configuration does not allow.
    pub fn get_repo_dir(&self, repo_path: &str) -> (r: Result<String, RepoError>)
        ensures
            match r {
                Ok(dir) => self.config.allows(repo_path@) && dir@ == path_join(
                    self.dir_path@,
                    repo_path@,
                ),
                Err(RepoError::NoSuchRepo(path)) => !self.config.allows(repo_path@) && path@
                    == repo_path@,
                Err(RepoError::ReadDir(_)) => false,
            },
    {
        if !self.config.check_dir(repo_path) {
            Err(RepoError::NoSuchRepo(String::from_str(repo_path)))
        } else {
            Ok(join_path(self.dir_path.as_str(), repo_path))
        }
    }

    /// The repositories to list in the namespace `ns`, given the directories
    /// `dirs` that were found in it. It is an error to ask for a namespace
    /// that the configuration does not allow.
    pub fn get_ns_repos(&self, ns: &str, dirs: &Vec<String>) -> (r: Result<Vec<String>, RepoError>)
        ensures
            match r {
                Ok(repos) => self.config.allows(ns@) && string_views(repos@) == shown_repos(
                    self.config,
                    ns@,
                    string_views(dirs@),
                ),
                Err(RepoError::NoSuchRepo(path)) => !self.config.allows(ns@) && path@ == ns@,
                Err(RepoError::ReadDir(_)) => false,
            },
    {
        match self.get_repo_dir(ns) {
            Ok(_) => Ok(filter_repos(&self.config, ns, dirs)),
            Err(e) => Err(e),
        }
    }

    /// The repositories to list, namespace by namespace, given what reading
    /// the directory of each namespace gave. A namespace that the
    /// configuration does not allow is passed over, whatever was read. The
    /// first allowed namespace that could not be read is an error.
    pub fn get_repos(&self, namespaces: &Vec<NamespaceDirs>) -> (r: Result<
        Vec<NamespaceRepos>,
        RepoError,
    >)
        ensures
            match r {
                Ok(entries) => {
                    &&& forall|i: int| !fails_at(self.config, namespaces@, i)
                    &&& distinct_names(entries@)
                    &&& listing(entries@) == listed(self.config, namespaces@)
                },
                Err(RepoError::ReadDir(reason)) => exists|i: int|
                    {
                        &&& fails_at(self.config, namespaces@, i)
                        &&& forall|j: int| 0 <= j < i ==> !fails_at(self.config, namespaces@, j)
                        &&& namespaces@[i].dirs matches Err(why)
                        &&& reason@ == why@
                    },
                Err(RepoError::NoSuchRepo(_)) => false,
            },
    {
        let mut entries: Vec<NamespaceRepos> = Vec::new();
        let mut i: usize = 0;
        assert(namespaces@.take(0) == Seq::<NamespaceDirs>::empty());
        while i < namespaces.len()
            invariant
                i <= namespaces.len(),
                forall|j: int| 0 <= j < i ==> !fails_at(self.config, namespaces@, j),
                distinct_names(entries@),
                listing(entries@) == listed(self.config, namespaces@.take(i as int)),
            decreases namespaces.len() - i,
        {
            proof {
                assert(namespaces@.take(i + 1).drop_last() == namespaces@.take(i as int));
                assert(namespaces@.take(i + 1).last() == namespaces@[i as int]);
            }
            let namespace = &namespaces[i];
            if self.config.check_dir(namespace.name.as_str()) {
                match &namespace.dirs {
                    Ok(dirs) => {
                        let repos = filter_repos(&self.config, namespace.name.as_str(), dirs);
                        put_entry(
                            &mut entries,
                            NamespaceRepos { name: namespace.name.clone(), repos },
                        );
                    },
                    Err(why) => {
                        assert(fails_at(self.config, namespaces@, i as int));
                        return Err(RepoError::ReadDir(why.clone()));
                    },
                }
            }
            i += 1;
        }
        assert(namespaces@.take(namespaces.len() as int) == namespaces@);
        Ok(entries)
    }
}

impl RepoDetails {
    /// The details of a repository: its active branch, all its branches,
    /// and the tree of the active one.
    pub fn new(active_branch: String, branches: Vec<String>, tree_response: TreeResponse) -> (details:
        RepoDetails)
        ensures
            details.active_branch == active_branch,
            details.branches == branches,
            details.tree_response == tree_response,
    {
        RepoDetails { active_branch, branches, tree_response }
    }
}

/// The media type of binary content.
pub open spec fn binary_mime() -> Seq<char> {
    "application/octet-stream"@
}

/// The media type of text.
pub open spec fn text_mime() -> Seq<char> {
    "text/plain"@
}

impl Blob {
    /// The media type under which the content is served.
    pub fn mime_type(&self) -> (mime: &'static str)
        ensures
            mime@ == if self.is_binary {
                binary_mime()
            } else {
                text_mime()
            },
    {
        if self.is_binary {
            "application/octet-stream"
        } else {
            "text/plain"
        }
    }
}

/// Where the branches of a repository are kept, seen from the repository.
pub open spec fn heads() -> Seq<char> {
    "refs/heads"@
}

/// The name of the reference of the branch `branch`.
pub fn branch_ref(branch: &str) -> (name: String)
    ensures
        name@ == path_join(heads(), branch@),
{
    join_path("refs/heads", branch)
}

/// The directory that holds the branches of the repository at `dir_path`.
pub fn heads_dir(dir_path: &str) -> (dir: String)
    ensures
        dir@ == path_join(dir_path@, heads()),
{
    join_path(dir_path, "refs/heads")
}

/// What ends the name of a bare repository's directory.
pub open spec fn git_suffix() -> Seq<char> {
    seq!['.', 'g', 'i', 't']
}

/// `name` ends with `suffix`.
pub open spec fn ends_with(name: Seq<char>, suffix: Seq<char>) -> bool {
    name.len() >= suffix.len() && name.subrange(name.len() - suffix.len(), name.len() as int)
        == suffix
}

/// `name` without `suffix` at its end, as often as it stands there.
pub open spec fn trim_end(name: Seq<char>, suffix: Seq<char>) -> Seq<char>
    decreases name.len(),
{
    if suffix.len() > 0 && ends_with(name, suffix) {
        trim_end(name.take(name.len() - suffix.len()), suffix)
    } else {
        name
    }
}

/// The path names a repository inside a namespace: it holds a slash.
pub open spec fn has_repo_segment(repo_path: Seq<char>) -> bool {
    split(repo_path, '/').len() >= 2
}

/// The name of the repository at `repo_path`: the second segment of the
/// path, without `.git` at its end.
pub open spec fn name_of_repo(repo_path: Seq<char>) -> Seq<char> {
    trim_end(split(repo_path, '/')[1], git_suffix())
}

/// Whether the path names a repository inside a namespace.
pub fn names_repo(repo_path: &str) -> (named: bool)
    ensures
        named == has_repo_segment(repo_path@),
{
    let chars = chars_of(repo_path);
    let segments = split_chars(&chars, '/');
    assert(segments@.len() == line_views(segments@).len());
    segments.len() >= 2
}

/// The name under which the repository at `repo_path` is shown.
pub fn repo_name(repo_path: &str) -> (name: String)
    requires
        has_repo_segment(repo_path@),
    ensures
        name@ == name_of_repo(repo_path@),
{
    let chars = chars_of(repo_path);
    let segments = split_chars(&chars, '/');
    assert(segments@.len() == line_views(segments@).len());
    let segment = &segments[1];
    assert(segment@ == split(repo_path@, '/')[1]);
    let mut end: usize = segment.len();
    assert(segment@.take(end as int) == segment@);
    while end >= 4 && segment[end - 4] == '.' && segment[end - 3] == 'g' && segment[end - 2] == 'i'
        && segment[end - 1] == 't'
        invariant
            end <= segment@.len(),
            trim_end(segment@, git_suffix()) == trim_end(segment@.take(end as int), git_suffix()),
        decreases end,
    {
        proof {
            let name = segment@.take(end as int);
            assert(name.subrange(name.len() - 4, name.len() as int) == git_suffix());
            assert(name.take(name.len() - 4) == segment@.take(end - 4));
        }
        end -= 4;
    }
    proof {
        let name = segment@.take(end as int);
        if ends_with(name, git_suffix()) {
            let tail = name.subrange(name.len() - 4, name.len() as int);
            assert(tail[0] == '.' && tail[1] == 'g' && tail[2] == 'i' && tail[3] == 't');
        }
        assert(name == segment@.subrange(0, end as int));
    }
    string_of_range(segment, 0, end)
}

} // verus!
