//! Which page a request asks for, by the segments of its path.

use vstd::prelude::*;

use crate::repo::{join_path, path_join};
use crate::text::{join, same_text, string_views};

verus! {

/// The page that a path asks for.
#[derive(Debug)]
pub enum Route {
    /// The repositories of a namespace.
    RepoList { path: String },
    /// The front page of a repository.
    Repo { path: String },
    /// The tree of a branch.
    Branch { repo_path: String, branch: String },
    /// A tree, by its id.
    Tree { repo_path: String, hash: String },
    /// A file, by its id.
    Blob { repo_path: String, hash: String },
    /// No page.
    NotFound,
}

/// The segments that name something: those that are not empty.
pub open spec fn named_segments(segments: Seq<Seq<char>>) -> Seq<Seq<char>> {
    segments.filter(|segment: Seq<char>| segment.len() > 0)
}

/// The third segment of a path to a branch.
pub open spec fn branch_word() -> Seq<char> {
    "branch"@
}

/// The third segment of a path to a tree.
pub open spec fn tree_word() -> Seq<char> {
    "tree"@
}

/// The third segment of a path to a file.
pub open spec fn blob_word() -> Seq<char> {
    "blob"@
}

/// The segment says what kind of object the path leads to.
pub open spec fn is_object_word(segment: Seq<char>) -> bool {
    segment == branch_word() || segment == tree_word() || segment == blob_word()
}

/// The path can be routed: it names something, and where it says what kind
/// of object it leads to, it also says which.
pub open spec fn is_routable(segments: Seq<Seq<char>>) -> bool {
    let named = named_segments(segments);
    named.len() >= 1 && (named.len() == 3 ==> !is_object_word(named[2]))
}

/// The page that the path with these segments asks for, as `route` gives
/// it: one segment names a namespace, two name a repository, and behind
/// them come the kind of an object and its name.
pub open spec fn is_route_of(route: Route, segments: Seq<Seq<char>>) -> bool {
    let named = named_segments(segments);
    match route {
        Route::RepoList { path } => named.len() == 1 && path@ == named[0],
        Route::Repo { path } => named.len() == 2 && path@ == path_join(named[0], named[1]),
        Route::Branch { repo_path, branch } => {
            &&& named.len() >= 4
            &&& named[2] == branch_word()
            &&& repo_path@ == path_join(named[0], named[1])
            &&& branch@ == named[3]
        },
        Route::Tree { repo_path, hash } => {
            &&& named.len() >= 4
            &&& named[2] == tree_word()
            &&& repo_path@ == path_join(named[0], named[1])
            &&& hash@ == named[3]
        },
        Route::Blob { repo_path, hash } => {
            &&& named.len() >= 4
            &&& named[2] == blob_word()
            &&& repo_path@ == path_join(named[0], named[1])
            &&& hash@ == named[3]
        },
        Route::NotFound => named.len() >= 3 && !is_object_word(named[2]),
    }
}

/// The segments of a path that are not empty, in their order.
pub fn segments_named(path_segments: &Vec<String>) -> (named: Vec<String>)
    ensures
        string_views(named@) == named_segments(string_views(path_segments@)),
{
    let mut named: Vec<String> = Vec::new();
    let ghost all = string_views(path_segments@);
    let mut i: usize = 0;
    proof {
        reveal(Seq::filter);
        assert(all.take(0) == Seq::<Seq<char>>::empty());
    }
    while i < path_segments.len()
        invariant
            i <= path_segments.len(),
            all == string_views(path_segments@),
            string_views(named@) == named_segments(all.take(i as int)),
        decreases path_segments.len() - i,
    {
        let ghost done = string_views(named@);
        proof {
            let has_name = |segment: Seq<char>| segment.len() > 0;
            assert(all.take(i + 1) == all.take(i as int).push(all[i as int]));
            all.take(i as int).lemma_filter_push(all[i as int], has_name);
        }
        if !path_segments[i].as_str().is_empty() {
            named.push(path_segments[i].clone());
            assert(string_views(named@) == done.push(all[i as int]));
        }
        i += 1;
    }
    assert(all.take(path_segments.len() as int) == all);
    named
}

/// Whether the path with these segments can be routed.
pub fn can_route(path_segments: &Vec<String>) -> (routable: bool)
    ensures
        routable == is_routable(string_views(path_segments@)),
{
    let named = segments_named(path_segments);
    assert(named@.len() == string_views(named@).len());
    if named.len() == 0 {
        false
    } else if named.len() == 3 {
        assert(string_views(named@)[2] == named@[2]@);
        let word = named[2].as_str();
        !(same_text(word, "branch") || same_text(word, "tree") || same_text(word, "blob"))
    } else {
        true
    }
}

/// The page that the path with these segments asks for. The joined path of
/// a namespace or a repository is its segments with slashes between them.
pub fn route(path_segments: &Vec<String>) -> (found: Route)
    requires
        is_routable(string_views(path_segments@)),
    ensures
        is_route_of(found, string_views(path_segments@)),
        found matches Route::RepoList { path } ==> path@ == join(
            named_segments(string_views(path_segments@)),
            seq!['/'],
        ),
        found matches Route::Repo { path } ==> path@ == join(
            named_segments(string_views(path_segments@)),
            seq!['/'],
        ),
{
    let named = segments_named(path_segments);
    let ghost names = string_views(named@);
    assert(named@.len() == names.len());
    if named.len() == 1 {
        assert(names[0] == named@[0]@);
        return Route::RepoList { path: named[0].clone() };
    }
    assert(names[0] == named@[0]@);
    assert(names[1] == named@[1]@);
    let repo_path = join_path(named[0].as_str(), named[1].as_str());
    if named.len() == 2 {
        assert(join(names, seq!['/']) == path_join(names[0], names[1])) by {
            assert(names.drop_last().len() == 1);
            assert(names.drop_last()[0] == names[0]);
            assert(join(names.drop_last(), seq!['/']) == names[0]);
        }
        return Route::Repo { path: repo_path };
    }
    assert(names[2] == named@[2]@);
    let word = named[2].as_str();
    if same_text(word, "branch") {
        assert(names[3] == named@[3]@);
        Route::Branch { repo_path, branch: named[3].clone() }
    } else if same_text(word, "tree") {
        assert(names[3] == named@[3]@);
        Route::Tree { repo_path, hash: named[3].clone() }
    } else if same_text(word, "blob") {
        assert(names[3] == named@[3]@);
        Route::Blob { repo_path, hash: named[3].clone() }
    } else {
        Route::NotFound
    }
}

} // verus!
