use branch_sweep::detect::current_branch_args;
use branch_sweep::detect::is_squashed_branch;
use branch_sweep::detect::local_branches_args;
use branch_sweep::detect::merged_query_args;
use branch_sweep::detect::pick_merged_branches;
use branch_sweep::detect::pick_squashed_branches;
use branch_sweep::detect::verify_base_args;
use branch_sweep::detect::SquashProbe;

fn strings(items: &[&str]) -> Vec<String> {
    items.iter().map(|s| s.to_string()).collect()
}

#[test]
fn query_argument_lists() {
    assert_eq!(
        merged_query_args("main"),
        strings(&["branch", "--merged", "main", "--format", "%(refname:short)"])
    );
    assert_eq!(
        local_branches_args(),
        strings(&["for-each-ref", "refs/heads/", "--format", "%(refname:short)"])
    );
    assert_eq!(verify_base_args("develop"), strings(&["rev-parse", "--verify", "develop"]));
    assert_eq!(current_branch_args(), strings(&["rev-parse", "--abbrev-ref", "HEAD"]));
}

#[test]
fn pick_merged_branches_drops_base() {
    let r = pick_merged_branches("main", "feat-a\nfeat-b\nmain");
    assert_eq!(r, strings(&["feat-a", "feat-b"]));
}

#[test]
fn pick_merged_branches_base_only() {
    let r = pick_merged_branches("main", "main");
    assert!(r.is_empty());
}

#[test]
fn pick_merged_branches_empty_output() {
    // An empty capture lists no branch: no name is picked, in particular
    // not the empty one that splitting empty text produces.
    let r = pick_merged_branches("main", "");
    assert!(r.is_empty());
}

#[test]
fn pick_merged_branches_drops_blank_lines() {
    let r = pick_merged_branches("main", "feat-a\n\nfeat-b");
    assert_eq!(r, strings(&["feat-a", "feat-b"]));
}

#[test]
fn pick_squashed_branches_drops_empty_names() {
    let names = strings(&["", "feat-a"]);
    let flags = vec![true, true];
    let r = pick_squashed_branches("main", &names, &flags);
    assert_eq!(r, strings(&["feat-a"]));
}

#[test]
fn upstream_marker_detection() {
    assert!(is_squashed_branch("- 6a7f20c A squashed change"));
    assert!(!is_squashed_branch("+ 6a7f20c A change still missing"));
    assert!(!is_squashed_branch(""));
    assert!(!is_squashed_branch("-"));
    assert!(!is_squashed_branch("-x"));
}

#[test]
fn squash_probe_positive_run() {
    let mut probe = SquashProbe::new("main", "feat-x");
    assert!(!probe.done());
    assert_eq!(probe.verdict(), None);

    assert_eq!(probe.pending_command(), strings(&["merge-base", "main", "feat-x"]));
    probe.advance("ancestor0");

    assert_eq!(probe.pending_command(), strings(&["rev-parse", "feat-x^{tree}"]));
    probe.advance("tree0");

    assert_eq!(
        probe.pending_command(),
        strings(&["commit-tree", "tree0", "-p", "ancestor0", "-m", "Temporary commit"])
    );
    probe.advance("tmpcommit0");

    assert_eq!(probe.pending_command(), strings(&["cherry", "main", "tmpcommit0"]));
    probe.advance("- tmpcommit0");

    assert!(probe.done());
    assert_eq!(probe.verdict(), Some(true));
}

#[test]
fn squash_probe_negative_run() {
    let mut probe = SquashProbe::new("main", "feat-y");
    probe.advance("ancestor1");
    probe.advance("tree1");
    probe.advance("tmpcommit1");
    probe.advance("+ tmpcommit1");
    assert_eq!(probe.verdict(), Some(false));
}

#[test]
fn pick_squashed_branches_filters() {
    let names = strings(&["feat-a", "feat-b", "feat-c"]);
    let flags = vec![false, true, false];
    let r = pick_squashed_branches("main", &names, &flags);
    assert_eq!(r, strings(&["feat-b"]));
}

#[test]
fn pick_squashed_branches_never_picks_base() {
    // Whatever the verdict slot for the base branch holds, it is not picked.
    let names = strings(&["feat-a", "main"]);
    let flags = vec![true, true];
    let r = pick_squashed_branches("main", &names, &flags);
    assert_eq!(r, strings(&["feat-a"]));
}

#[test]
fn pick_squashed_branches_keeps_order() {
    let names = strings(&["zeta", "alpha", "mid"]);
    let flags = vec![true, true, true];
    let r = pick_squashed_branches("main", &names, &flags);
    assert_eq!(r, strings(&["zeta", "alpha", "mid"]));
}
