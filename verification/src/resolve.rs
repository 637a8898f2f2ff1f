//! The resolution pipeline the page layer consumes: a request path resolved
//! under a commit's tree to rendered Markdown, raw bytes or a listing, and
//! the index page's parts brought together.

use vstd::prelude::*;
use crate::tree::TreeEntry;
use crate::tree::LookupOutcome;
use crate::tree::LookupOutcomeView;
use crate::tree::ChildInfo;
use crate::tree::ChildInfoView;
use crate::tree::lookup;
use crate::tree::lookup_spec;
use crate::markdown::Document;
use crate::markdown::DocumentView;
use crate::markdown::render;
use crate::markdown::render_spec;
use crate::paths::is_markdown_name;
use crate::paths::name_is_markdown;
use crate::history::CommitGraph;
use crate::history::graph_wf;
use crate::history::reachable;
use crate::history::recent_commits;

verus! {

/// Relies on `String::from_utf8`: it succeeds exactly on valid UTF-8 input
/// and decodes it to the text the bytes encode.
#[verifier::external_body]
fn decode_text(data: &Vec<u8>) -> (r: Option<String>)
    ensures
        match r {
            Some(s) => vstd::utf8::valid_utf8(data@) && s@ == vstd::utf8::decode_utf8(data@),
            None => !vstd::utf8::valid_utf8(data@),
        },
{
    String::from_utf8(data.clone()).ok()
}

/// What resolving a request path returns: a rendered Markdown document, a
/// raw blob (also the fallback for Markdown that is not valid text), a
/// directory listing, an object kind the browser does not render, or a miss
/// naming the whole requested path.
pub enum PathOutcome {
    Rendered { name: String, doc: Document },
    Raw { name: String, data: Vec<u8> },
    Listing { name: String, children: Vec<ChildInfo> },
    Unsupported { name: String },
    Missing { path: String },
}

/// The view of a path resolution outcome.
pub enum PathOutcomeView {
    Rendered { name: Seq<char>, doc: DocumentView },
    Raw { name: Seq<char>, data: Seq<u8> },
    Listing { name: Seq<char>, children: Seq<ChildInfoView> },
    Unsupported { name: Seq<char> },
    Missing { path: Seq<char> },
}

impl View for PathOutcome {
    type V = PathOutcomeView;

    open spec fn view(&self) -> PathOutcomeView {
        match self {
            PathOutcome::Rendered { name, doc } => PathOutcomeView::Rendered {
                name: name@,
                doc: doc@,
            },
            PathOutcome::Raw { name, data } => PathOutcomeView::Raw { name: name@, data: data@ },
            PathOutcome::Listing { name, children } => PathOutcomeView::Listing {
                name: name@,
                children: children@.map_values(|c: ChildInfo| c@),
            },
            PathOutcome::Unsupported { name } => PathOutcomeView::Unsupported { name: name@ },
            PathOutcome::Missing { path } => PathOutcomeView::Missing { path: path@ },
        }
    }
}

/// What resolving a path returns, as a function of the tree, the path and
/// the reference name alone: the looked-up entry, with a blob rendered when
/// its name marks it as Markdown and its bytes are valid text, and returned
/// raw otherwise.
pub open spec fn resolve_path_spec(
    root: Seq<TreeEntry>,
    path: Seq<char>,
    refname: Seq<char>,
) -> PathOutcomeView {
    match lookup_spec(root, path) {
        LookupOutcomeView::Blob { name, data } => if is_markdown_name(name)
            && vstd::utf8::valid_utf8(data) {
            PathOutcomeView::Rendered {
                name,
                doc: render_spec(vstd::utf8::decode_utf8(data), refname),
            }
        } else {
            PathOutcomeView::Raw { name, data }
        },
        LookupOutcomeView::Listing { name, children } => PathOutcomeView::Listing {
            name,
            children,
        },
        LookupOutcomeView::Unsupported { name } => PathOutcomeView::Unsupported { name },
        LookupOutcomeView::Missing { path } => PathOutcomeView::Missing { path },
    }
}

/// Resolves a request path under a commit's root tree and prepares what it
/// names for display: Markdown blobs are rendered under the reference name,
/// every other blob — and Markdown that is not valid text — comes back raw,
/// a tree becomes a listing of its immediate children.
pub fn resolve_path(root: &Vec<TreeEntry>, path: &str, ref_name: &str) -> (r: PathOutcome)
    ensures
        r@ == resolve_path_spec(root@, path@, ref_name@),
{
    match lookup(root, path) {
        LookupOutcome::Blob { name, data } => {
            if name_is_markdown(name.as_str()) {
                match decode_text(&data) {
                    Some(text) => PathOutcome::Rendered {
                        name,
                        doc: render(text.as_str(), ref_name),
                    },
                    None => PathOutcome::Raw { name, data },
                }
            } else {
                PathOutcome::Raw { name, data }
            }
        },
        LookupOutcome::Listing { name, children } => PathOutcome::Listing { name, children },
        LookupOutcome::Unsupported { name } => PathOutcome::Unsupported { name },
        LookupOutcome::Missing { path } => PathOutcome::Missing { path },
    }
}

/// Law: resolution is a pure read. Its outcome is a function of the tree,
/// the path and the reference name alone, so two resolutions of the same
/// request over an unchanged tree return identical output.
pub proof fn lemma_resolve_path_idempotent(
    root: Seq<TreeEntry>,
    path: Seq<char>,
    refname: Seq<char>,
    r1: PathOutcomeView,
    r2: PathOutcomeView,
)
    requires
        r1 == resolve_path_spec(root, path, refname),
        r2 == resolve_path_spec(root, path, refname),
    ensures
        r1 == r2,
{
}

/// The parts of a repository's index page: its branch and tag names, the
/// positions of its most recent commits, and its rendered readme, if one
/// was given.
pub struct IndexPage {
    pub branches: Vec<String>,
    pub tags: Vec<String>,
    pub commits: Vec<usize>,
    pub readme: Option<Document>,
}

/// Assembles a repository's index page: branch and tag names pass through
/// unchanged, recent history is walked from the head commit, and the readme
/// text, when given, is rendered under the head reference's name.
pub fn resolve_index(
    branches: Vec<String>,
    tags: Vec<String>,
    graph: &CommitGraph,
    head: usize,
    limit: usize,
    readme: Option<String>,
    head_ref: &str,
) -> (r: IndexPage)
    requires
        graph_wf(graph.nodes@),
        head < graph.nodes@.len(),
    ensures
        r.branches == branches,
        r.tags == tags,
        r.commits@.len() <= limit,
        forall|x: int, y: int| 0 <= x < y < r.commits@.len() ==> r.commits@[x] < r.commits@[y],
        forall|x: int|
            0 <= x < r.commits@.len() ==> reachable(
                graph.nodes@,
                head as int,
                r.commits@[x] as int,
            ),
        limit > 0 ==> r.commits@.len() > 0 && r.commits@[0] == head,
        match (readme, r.readme) {
            (Some(text), Some(doc)) => doc@ == render_spec(text@, head_ref@),
            (None, None) => true,
            _ => false,
        },
{
    let commits = recent_commits(graph, head, limit);
    let rendered: Option<Document> = match readme {
        Some(text) => Some(render(text.as_str(), head_ref)),
        None => None,
    };
    IndexPage { branches, tags, commits, readme: rendered }
}

} // verus!
