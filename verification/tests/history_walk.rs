use repohub::history::check_graph;
use repohub::history::recent_commits;
use repohub::history::CommitGraph;
use repohub::history::CommitNode;

/// A merge diamond: 0 merges 1 and 2, both of which branch from 3.
fn diamond() -> CommitGraph {
    CommitGraph {
        nodes: vec![
            CommitNode { parents: vec![1, 2] },
            CommitNode { parents: vec![3] },
            CommitNode { parents: vec![3] },
            CommitNode { parents: vec![] },
        ],
    }
}

#[test]
fn walk_lists_every_ancestor_once_newest_first() {
    let g = diamond();
    assert_eq!(recent_commits(&g, 0, 10), vec![0, 1, 2, 3]);
}

#[test]
fn walk_is_truncated_to_the_limit() {
    let g = diamond();
    assert_eq!(recent_commits(&g, 0, 2), vec![0, 1]);
}

#[test]
fn zero_limit_gives_nothing() {
    let g = diamond();
    assert_eq!(recent_commits(&g, 0, 0), vec![]);
}

#[test]
fn walk_starts_at_the_given_commit() {
    let g = diamond();
    assert_eq!(recent_commits(&g, 2, 10), vec![2, 3]);
}

#[test]
fn root_commit_has_only_itself() {
    let g = diamond();
    assert_eq!(recent_commits(&g, 3, 5), vec![3]);
}

#[test]
fn well_formed_slice_is_accepted() {
    assert!(check_graph(&diamond()));
}

#[test]
fn backward_parent_link_is_rejected() {
    let g = CommitGraph {
        nodes: vec![CommitNode { parents: vec![1] }, CommitNode { parents: vec![0] }],
    };
    assert!(!check_graph(&g));
}

#[test]
fn parent_link_outside_the_slice_is_rejected() {
    let g = CommitGraph { nodes: vec![CommitNode { parents: vec![7] }] };
    assert!(!check_graph(&g));
}

#[test]
fn long_first_parent_chain() {
    let nodes: Vec<CommitNode> =
        (0..20).map(|i| CommitNode { parents: if i < 19 { vec![i + 1] } else { vec![] } }).collect();
    let g = CommitGraph { nodes };
    let r = recent_commits(&g, 0, 5);
    assert_eq!(r, vec![0, 1, 2, 3, 4]);
}
