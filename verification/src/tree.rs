//! A commit's file tree and path lookup in it: descending a slash-separated
//! path segment by segment, and classifying what the final segment names.

use vstd::prelude::*;
use crate::paths::split_path;
use crate::paths::split_segs;

verus! {

/// One entry of a tree: a name and what the name leads to.
pub struct TreeEntry {
    pub name: String,
    pub item: TreeItem,
}

/// What a tree maps a name to: file content, a nested tree, or an object
/// kind the browser does not render (a link or submodule reference).
pub enum TreeItem {
    Blob { data: Vec<u8> },
    Dir { entries: Vec<TreeEntry> },
    Other,
}

/// The kind of a tree entry, as a directory listing shows it.
#[derive(PartialEq, Eq, Structural, Clone, Copy, Debug)]
pub enum EntryKind {
    File,
    Dir,
    Other,
}

/// One line of a directory listing: an immediate child's name and kind.
pub struct ChildInfo {
    pub name: String,
    pub kind: EntryKind,
}

/// The view of a listing line.
pub struct ChildInfoView {
    pub name: Seq<char>,
    pub kind: EntryKind,
}

impl View for ChildInfo {
    type V = ChildInfoView;

    open spec fn view(&self) -> ChildInfoView {
        ChildInfoView { name: self.name@, kind: self.kind }
    }
}

/// What `lookup` returns: the blob behind a full path, a listing of the tree
/// behind it, an unsupported object kind, or a miss naming the whole
/// requested path.
pub enum LookupOutcome {
    Blob { name: String, data: Vec<u8> },
    Listing { name: String, children: Vec<ChildInfo> },
    Unsupported { name: String },
    Missing { path: String },
}

/// The view of a lookup outcome.
pub enum LookupOutcomeView {
    Blob { name: Seq<char>, data: Seq<u8> },
    Listing { name: Seq<char>, children: Seq<ChildInfoView> },
    Unsupported { name: Seq<char> },
    Missing { path: Seq<char> },
}

impl View for LookupOutcome {
    type V = LookupOutcomeView;

    open spec fn view(&self) -> LookupOutcomeView {
        match self {
            LookupOutcome::Blob { name, data } => LookupOutcomeView::Blob {
                name: name@,
                data: data@,
            },
            LookupOutcome::Listing { name, children } => LookupOutcomeView::Listing {
                name: name@,
                children: children@.map_values(|c: ChildInfo| c@),
            },
            LookupOutcome::Unsupported { name } => LookupOutcomeView::Unsupported { name: name@ },
            LookupOutcome::Missing { path } => LookupOutcomeView::Missing { path: path@ },
        }
    }
}

/// The first entry of the given name, if any.
pub open spec fn find_entry(entries: Seq<TreeEntry>, name: Seq<char>) -> Option<TreeItem>
    decreases entries.len(),
{
    if entries.len() == 0 {
        None
    } else if entries[0].name@ == name {
        Some(entries[0].item)
    } else {
        find_entry(entries.drop_first(), name)
    }
}

/// Descent of a non-empty segment sequence: each non-final segment must name
/// a nested tree, the final one names the item found. `None` is a miss,
/// also when a non-final segment names a blob (a file is no directory).
pub open spec fn lookup_segs(entries: Seq<TreeEntry>, segs: Seq<Seq<char>>) -> Option<TreeItem>
    decreases segs.len(),
{
    if segs.len() == 0 {
        None
    } else {
        match find_entry(entries, segs[0]) {
            None => None,
            Some(item) => if segs.len() == 1 {
                Some(item)
            } else {
                match item {
                    TreeItem::Dir { entries: sub } => lookup_segs(sub@, segs.drop_first()),
                    _ => None,
                }
            },
        }
    }
}

/// The listing kind of an item.
pub open spec fn kind_of(item: TreeItem) -> EntryKind {
    match item {
        TreeItem::Blob { .. } => EntryKind::File,
        TreeItem::Dir { .. } => EntryKind::Dir,
        TreeItem::Other => EntryKind::Other,
    }
}

/// A tree's immediate children as listing lines, in the tree's own order.
pub open spec fn children_view(entries: Seq<TreeEntry>) -> Seq<ChildInfoView> {
    entries.map_values(|e: TreeEntry| ChildInfoView { name: e.name@, kind: kind_of(e.item) })
}

/// What a lookup of `path` under `root` returns: the empty path names the
/// root tree itself; otherwise the path is split into segments and the tree
/// is descended; a miss names the whole requested path.
pub open spec fn lookup_spec(root: Seq<TreeEntry>, path: Seq<char>) -> LookupOutcomeView {
    if path.len() == 0 {
        LookupOutcomeView::Listing { name: Seq::empty(), children: children_view(root) }
    } else {
        let segs = split_segs(path);
        match lookup_segs(root, segs) {
            None => LookupOutcomeView::Missing { path },
            Some(item) => match item {
                TreeItem::Blob { data } => LookupOutcomeView::Blob {
                    name: segs.last(),
                    data: data@,
                },
                TreeItem::Dir { entries } => LookupOutcomeView::Listing {
                    name: segs.last(),
                    children: children_view(entries@),
                },
                TreeItem::Other => LookupOutcomeView::Unsupported { name: segs.last() },
            },
        }
    }
}

/// Copies blob bytes.
fn copy_bytes(v: &Vec<u8>) -> (r: Vec<u8>)
    ensures
        r@ == v@,
{
    let mut r: Vec<u8> = Vec::new();
    let mut i: usize = 0;
    while i < v.len()
        invariant
            i <= v@.len(),
            r@ == v@.subrange(0, i as int),
        decreases v@.len() - i,
    {
        r.push(v[i]);
        proof {
            assert(r@ =~= v@.subrange(0, i + 1));
        }
        i += 1;
    }
    proof {
        assert(v@.subrange(0, v@.len() as int) =~= v@);
    }
    r
}

/// Lists a tree's immediate children.
fn list_children(entries: &Vec<TreeEntry>) -> (r: Vec<ChildInfo>)
    ensures
        r@.map_values(|c: ChildInfo| c@) == children_view(entries@),
{
    let mut r: Vec<ChildInfo> = Vec::new();
    let mut i: usize = 0;
    while i < entries.len()
        invariant
            i <= entries@.len(),
            r@.map_values(|c: ChildInfo| c@) =~= children_view(entries@.subrange(0, i as int)),
        decreases entries@.len() - i,
    {
        let e = &entries[i];
        let kind = match &e.item {
            TreeItem::Blob { .. } => EntryKind::File,
            TreeItem::Dir { .. } => EntryKind::Dir,
            TreeItem::Other => EntryKind::Other,
        };
        let child = ChildInfo { name: e.name.clone(), kind };
        proof {
            assert(child@ == ChildInfoView {
                name: entries@[i as int].name@,
                kind: kind_of(entries@[i as int].item),
            });
            assert(entries@.subrange(0, i + 1) =~= entries@.subrange(0, i as int).push(
                entries@[i as int],
            ));
            assert(r@.push(child).map_values(|c: ChildInfo| c@) =~= r@.map_values(
                |c: ChildInfo| c@,
            ).push(child@));
            assert(children_view(entries@.subrange(0, i as int).push(entries@[i as int]))
                =~= children_view(entries@.subrange(0, i as int)).push(child@));
        }
        r.push(child);
        i += 1;
    }
    proof {
        assert(entries@.subrange(0, entries@.len() as int) =~= entries@);
        assert(r@.map_values(|c: ChildInfo| c@) =~= children_view(entries@));
    }
    r
}

/// Finds the first entry of the given name.
fn find_in(entries: &Vec<TreeEntry>, name: &String) -> (r: Option<usize>)
    ensures
        match r {
            Some(i) => i < entries@.len() && find_entry(entries@, name@) == Some(
                entries@[i as int].item,
            ),
            None => find_entry(entries@, name@) is None,
        },
{
    let mut i: usize = 0;
    proof {
        assert(entries@.skip(0) =~= entries@);
    }
    while i < entries.len()
        invariant
            i <= entries@.len(),
            find_entry(entries@, name@) == find_entry(entries@.skip(i as int), name@),
        decreases entries@.len() - i,
    {
        if entries[i].name == *name {
            proof {
                assert(entries@.skip(i as int)[0] == entries@[i as int]);
            }
            return Some(i);
        }
        proof {
            assert(entries@.skip(i as int)[0] == entries@[i as int]);
            assert(entries@.skip(i as int).drop_first() =~= entries@.skip(i + 1));
        }
        i += 1;
    }
    proof {
        assert(entries@.skip(entries@.len() as int).len() == 0);
    }
    None
}

/// Looks a slash-separated path up under a commit's root tree. The empty
/// path names the root tree; a miss — an absent segment, or a non-final
/// segment naming a file — reports the whole requested path.
pub fn lookup(root: &Vec<TreeEntry>, path: &str) -> (r: LookupOutcome)
    ensures
        r@ == lookup_spec(root@, path@),
{
    if path.is_empty() {
        let children = list_children(root);
        return LookupOutcome::Listing { name: String::new(), children };
    }
    let segs: Vec<String> = split_path(path);
    let ghost sv: Seq<Seq<char>> = split_segs(path@);
    proof {
        assert(segs@.map_values(|t: String| t@) == sv);
        assert(segs@.len() == sv.len());
        assert(sv.skip(0) =~= sv);
    }
    let mut cur: &Vec<TreeEntry> = root;
    let mut k: usize = 0;
    loop
        invariant
            k < segs@.len(),
            segs@.len() == sv.len(),
            segs@.map_values(|t: String| t@) == sv,
            sv == split_segs(path@),
            path@.len() != 0,
            lookup_segs(cur@, sv.skip(k as int)) == lookup_segs(root@, sv),
        decreases segs@.len() - k,
    {
        proof {
            assert(sv.skip(k as int)[0] == sv[k as int]);
            assert(sv[k as int] == segs@[k as int]@);
        }
        let idx = match find_in(cur, &segs[k]) {
            Some(i) => i,
            None => {
                return LookupOutcome::Missing { path: path.to_owned() };
            },
        };
        if k == segs.len() - 1 {
            proof {
                assert(sv.skip(k as int).len() == 1);
                assert(sv.last() == sv[k as int]);
            }
            let item = &cur[idx];
            return match &item.item {
                TreeItem::Blob { data } => LookupOutcome::Blob {
                    name: segs[k].clone(),
                    data: copy_bytes(data),
                },
                TreeItem::Dir { entries } => LookupOutcome::Listing {
                    name: segs[k].clone(),
                    children: list_children(entries),
                },
                TreeItem::Other => LookupOutcome::Unsupported { name: segs[k].clone() },
            };
        }
        proof {
            assert(sv.skip(k as int).len() == sv.len() - k);
            assert(sv.skip(k as int).drop_first() =~= sv.skip(k + 1));
        }
        match &cur[idx].item {
            TreeItem::Dir { entries } => {
                cur = entries;
            },
            _ => {
                return LookupOutcome::Missing { path: path.to_owned() };
            },
        }
        k += 1;
    }
}

/// A path joined from slash-free segments that descend through nested trees
/// to a blob is found again by `lookup_segs` after splitting: the round trip
/// from segments to a path and back loses nothing.
pub proof fn lemma_lookup_roundtrip(root: Seq<TreeEntry>, segs: Seq<Seq<char>>)
    requires
        segs.len() > 0,
        forall|k: int| 0 <= k < segs.len() ==> !(#[trigger] segs[k]).contains('/'),
        forall|k: int| 0 <= k < segs.len() ==> (#[trigger] segs[k]).len() > 0,
        lookup_segs(root, segs) matches Some(TreeItem::Blob { .. }),
    ensures
        lookup_segs(root, split_segs(crate::paths::join_segs(segs))) == lookup_segs(root, segs),
        lookup_spec(root, crate::paths::join_segs(segs)) matches LookupOutcomeView::Blob { .. },
{
    crate::paths::lemma_split_join(segs);
    let joined = crate::paths::join_segs(segs);
    assert(joined.len() > 0) by {
        if segs.len() == 1 {
            assert(joined == segs[0]);
            assert(segs[0].len() > 0);
        } else {
            assert(joined == segs[0] + seq!['/'] + crate::paths::join_segs(segs.drop_first()));
        }
    }
}

} // verus!
