//! Merge detection: deciding which local branches are already integrated into
//! a base branch.
//!
//! Every query against the version-control store is a command invocation made
//! by the surrounding program; this module builds the exact argument lists and
//! interprets the captured output. A true merge shows up in the ancestry query
//! (`branch --merged`); a squash merge does not, so it is detected by
//! synthesizing a throwaway commit that replays the candidate's tip tree onto
//! the divergence point and asking whether that commit is patch-equivalent to
//! something already in the base branch's history ([`SquashProbe`]).

use vstd::prelude::*;
use vstd::string::*;

use crate::text::lemma_views_push;
use crate::text::spec_lines;
use crate::text::split_lines;
use crate::text::str_eq;
use crate::text::views;

verus! {

/// The lines of the ancestry-query output that name a branch other than the
/// base branch, in their original order. A branch name is never empty, so an
/// empty line — in particular the single empty line of an empty output,
/// which lists no branch at all — names nothing and is dropped.
pub open spec fn merged_picks(lines: Seq<Seq<char>>, base: Seq<char>) -> Seq<Seq<char>>
    decreases lines.len(),
{
    if lines.len() == 0 {
        Seq::empty()
    } else {
        let rest = merged_picks(lines.drop_last(), base);
        if lines.last() != base && lines.last().len() > 0 {
            rest.push(lines.last())
        } else {
            rest
        }
    }
}

/// Arguments of the query that lists every branch already merged into the
/// base branch, one name per output line.
pub fn merged_query_args(base_branch_name: &str) -> (r: Vec<String>)
    ensures
        views(r@) == seq![
            "branch"@,
            "--merged"@,
            base_branch_name@,
            "--format"@,
            "%(refname:short)"@,
        ],
{
    let mut r: Vec<String> = Vec::new();
    r.push(String::from_str("branch"));
    r.push(String::from_str("--merged"));
    r.push(String::from_str(base_branch_name));
    r.push(String::from_str("--format"));
    r.push(String::from_str("%(refname:short)"));
    proof {
        assert(views(r@) =~= seq![
            "branch"@,
            "--merged"@,
            base_branch_name@,
            "--format"@,
            "%(refname:short)"@,
        ]);
    }
    r
}

/// Arguments of the query that lists every local branch reference name, one
/// per output line.
pub fn local_branches_args() -> (r: Vec<String>)
    ensures
        views(r@) == seq!["for-each-ref"@, "refs/heads/"@, "--format"@, "%(refname:short)"@],
{
    let mut r: Vec<String> = Vec::new();
    r.push(String::from_str("for-each-ref"));
    r.push(String::from_str("refs/heads/"));
    r.push(String::from_str("--format"));
    r.push(String::from_str("%(refname:short)"));
    proof {
        assert(views(r@) =~= seq![
            "for-each-ref"@,
            "refs/heads/"@,
            "--format"@,
            "%(refname:short)"@,
        ]);
    }
    r
}

/// Arguments of the query that checks that the base branch resolves at all.
pub fn verify_base_args(base_branch_name: &str) -> (r: Vec<String>)
    ensures
        views(r@) == seq!["rev-parse"@, "--verify"@, base_branch_name@],
{
    let mut r: Vec<String> = Vec::new();
    r.push(String::from_str("rev-parse"));
    r.push(String::from_str("--verify"));
    r.push(String::from_str(base_branch_name));
    proof {
        assert(views(r@) =~= seq!["rev-parse"@, "--verify"@, base_branch_name@]);
    }
    r
}

/// Arguments of the query that resolves the currently checked-out branch.
pub fn current_branch_args() -> (r: Vec<String>)
    ensures
        views(r@) == seq!["rev-parse"@, "--abbrev-ref"@, "HEAD"@],
{
    let mut r: Vec<String> = Vec::new();
    r.push(String::from_str("rev-parse"));
    r.push(String::from_str("--abbrev-ref"));
    r.push(String::from_str("HEAD"));
    proof {
        assert(views(r@) =~= seq!["rev-parse"@, "--abbrev-ref"@, "HEAD"@]);
    }
    r
}

/// The branches that the ancestry query reported as merged into the base
/// branch: every non-empty output line except the base branch itself. An
/// empty output reports no branch, so it yields no name.
pub fn pick_merged_branches(base_branch_name: &str, merged_output: &str) -> (r: Vec<String>)
    ensures
        views(r@) == merged_picks(spec_lines(merged_output@), base_branch_name@),
{
    let lines = split_lines(merged_output);
    let n: usize = lines.len();
    let mut r: Vec<String> = Vec::new();
    let mut i: usize = 0;
    proof {
        assert(views(lines@).take(0) =~= Seq::<Seq<char>>::empty());
        assert(views(r@) =~= Seq::<Seq<char>>::empty());
    }
    while i < n
        invariant
            i <= n,
            n == lines@.len(),
            views(r@) == merged_picks(views(lines@).take(i as int), base_branch_name@),
        decreases n - i,
    {
        proof {
            let vl = views(lines@);
            assert(vl.take(i as int + 1).drop_last() =~= vl.take(i as int));
            assert(vl.take(i as int + 1).last() == vl[i as int]);
        }
        if !str_eq(lines[i].as_str(), base_branch_name) && !lines[i].as_str().is_empty() {
            let owned = lines[i].clone();
            proof {
                lemma_views_push(r@, owned);
            }
            r.push(owned);
        }
        i = i + 1;
    }
    proof {
        assert(views(lines@).take(n as int) =~= views(lines@));
    }
    r
}

/// A non-empty name the ancestry query reported is picked as true-merged —
/// unless it is the base branch — and nothing else is.
pub proof fn lemma_merged_picks_membership(lines: Seq<Seq<char>>, base: Seq<char>)
    ensures
        forall|x: Seq<char>|
            #[trigger] merged_picks(lines, base).contains(x) <==> (lines.contains(x) && x != base
                && x.len() > 0),
    decreases lines.len(),
{
    if lines.len() > 0 {
        lemma_merged_picks_membership(lines.drop_last(), base);
        let picks = merged_picks(lines, base);
        let rest = merged_picks(lines.drop_last(), base);
        assert forall|x: Seq<char>| #[trigger] picks.contains(x) implies (lines.contains(x) && x
            != base && x.len() > 0) by {
            if lines.last() != base && lines.last().len() > 0 && x == lines.last() {
                assert(lines[lines.len() - 1] == x);
            } else {
                assert(rest.contains(x));
                let k = choose|k: int|
                    0 <= k < lines.drop_last().len() && lines.drop_last()[k] == x;
                assert(lines[k] == x);
            }
        }
        assert forall|x: Seq<char>| (lines.contains(x) && x != base && x.len()
            > 0) implies #[trigger] picks.contains(x) by {
            let k = choose|k: int| 0 <= k < lines.len() && lines[k] == x;
            if k == lines.len() - 1 {
                assert(picks.last() == x);
                assert(picks.contains(x));
            } else {
                assert(lines.drop_last()[k] == x);
                assert(rest.contains(x));
                if lines.last() != base && lines.last().len() > 0 {
                    let j = choose|j: int| 0 <= j < rest.len() && rest[j] == x;
                    assert(picks[j] == x);
                }
            }
        }
    }
}

/// The first line of the patch-equivalence query's output begins with the
/// marker that means "this change is already represented upstream".
pub open spec fn is_upstream_marker(s: Seq<char>) -> bool {
    s.len() >= 2 && s[0] == '-' && s[1] == ' '
}

/// Interprets the output of the patch-equivalence query: the candidate is
/// squash-merged exactly when the output starts with the upstream marker.
pub fn is_squashed_branch(cherry_output: &str) -> (r: bool)
    ensures
        r == is_upstream_marker(cherry_output@),
{
    let len: usize = cherry_output.unicode_len();
    if len < 2 {
        return false;
    }
    let c0 = cherry_output.get_char(0);
    let c1 = cherry_output.get_char(1);
    c0 == '-' && c1 == ' '
}

/// Where the squash probe stands: which query result it still needs.
pub enum ProbeStage {
    /// Needs the common ancestor of base and candidate.
    WantAncestor,
    /// Needs the candidate tip's tree object.
    WantTree { ancestor: String },
    /// Needs the synthetic commit made of that tree on the ancestor.
    WantSynthetic { ancestor: String, tree: String },
    /// Needs the patch-equivalence answer for the synthetic commit.
    WantCherry { synthetic: String },
    /// The candidate is classified.
    Judged { squashed: bool },
}

pub ghost enum ProbeStageView {
    WantAncestor,
    WantTree { ancestor: Seq<char> },
    WantSynthetic { ancestor: Seq<char>, tree: Seq<char> },
    WantCherry { synthetic: Seq<char> },
    Judged { squashed: bool },
}

impl View for ProbeStage {
    type V = ProbeStageView;

    open spec fn view(&self) -> ProbeStageView {
        match self {
            ProbeStage::WantAncestor => ProbeStageView::WantAncestor,
            ProbeStage::WantTree { ancestor } => (ProbeStageView::WantTree {
                ancestor: ancestor@,
            }),
            ProbeStage::WantSynthetic { ancestor, tree } => (ProbeStageView::WantSynthetic {
                ancestor: ancestor@,
                tree: tree@,
            }),
            ProbeStage::WantCherry { synthetic } => (ProbeStageView::WantCherry {
                synthetic: synthetic@,
            }),
            ProbeStage::Judged { squashed } => (ProbeStageView::Judged { squashed: *squashed }),
        }
    }
}

pub ghost struct ProbeView {
    pub base: Seq<char>,
    pub target: Seq<char>,
    pub stage: ProbeStageView,
}

/// The squash-merge check for one candidate branch, as a state machine.
///
/// The check runs four queries, each feeding the next: the common ancestor of
/// base and candidate, the candidate tip's tree, a synthetic commit carrying
/// that tree with the ancestor as its sole parent, and the patch-equivalence
/// answer for that commit against the base branch. The synthetic commit is
/// held only here, between one answer and the next question; it is never
/// attached to any reference. The surrounding program runs
/// [`SquashProbe::pending_command`]'s command and hands the trimmed output to
/// [`SquashProbe::advance`] until [`SquashProbe::verdict`] answers.
pub struct SquashProbe {
    base: String,
    target: String,
    stage: ProbeStage,
}

impl View for SquashProbe {
    type V = ProbeView;

    closed spec fn view(&self) -> ProbeView {
        ProbeView { base: self.base@, target: self.target@, stage: self.stage@ }
    }
}

/// The arguments of the query a probe needs next.
pub open spec fn probe_command(v: ProbeView) -> Seq<Seq<char>>
    recommends
        !(v.stage is Judged),
{
    match v.stage {
        ProbeStageView::WantAncestor => seq!["merge-base"@, v.base, v.target],
        ProbeStageView::WantTree { ancestor } => seq!["rev-parse"@, v.target + "^{tree}"@],
        ProbeStageView::WantSynthetic { ancestor, tree } => seq![
            "commit-tree"@,
            tree,
            "-p"@,
            ancestor,
            "-m"@,
            "Temporary commit"@,
        ],
        ProbeStageView::WantCherry { synthetic } => seq!["cherry"@, v.base, synthetic],
        ProbeStageView::Judged { squashed } => Seq::empty(),
    }
}

/// How a probe moves on one query output.
pub open spec fn probe_step(v: ProbeView, out: Seq<char>) -> ProbeView {
    let stage = match v.stage {
        ProbeStageView::WantAncestor => (ProbeStageView::WantTree { ancestor: out }),
        ProbeStageView::WantTree { ancestor } => (ProbeStageView::WantSynthetic {
            ancestor: ancestor,
            tree: out,
        }),
        ProbeStageView::WantSynthetic { ancestor, tree } => (ProbeStageView::WantCherry {
            synthetic: out,
        }),
        ProbeStageView::WantCherry { synthetic } => (ProbeStageView::Judged {
            squashed: is_upstream_marker(out),
        }),
        ProbeStageView::Judged { squashed } => (ProbeStageView::Judged { squashed }),
    };
    ProbeView { base: v.base, target: v.target, stage: stage }
}

impl SquashProbe {
    /// Starts the squash-merge check of `target_branch_name` against
    /// `base_branch_name`.
    pub fn new(base_branch_name: &str, target_branch_name: &str) -> (p: SquashProbe)
        ensures
            p@ == (ProbeView {
                base: base_branch_name@,
                target: target_branch_name@,
                stage: ProbeStageView::WantAncestor,
            }),
    {
        SquashProbe {
            base: String::from_str(base_branch_name),
            target: String::from_str(target_branch_name),
            stage: ProbeStage::WantAncestor,
        }
    }

    /// Whether the probe has classified its candidate.
    pub fn done(&self) -> (r: bool)
        ensures
            r == (self@.stage is Judged),
    {
        match &self.stage {
            ProbeStage::Judged { .. } => true,
            _ => false,
        }
    }

    /// The arguments of the query the probe needs next.
    pub fn pending_command(&self) -> (r: Vec<String>)
        requires
            !(self@.stage is Judged),
        ensures
            views(r@) == probe_command(self@),
    {
        let mut r: Vec<String> = Vec::new();
        match &self.stage {
            ProbeStage::WantAncestor => {
                r.push(String::from_str("merge-base"));
                r.push(self.base.clone());
                r.push(self.target.clone());
            },
            ProbeStage::WantTree { .. } => {
                r.push(String::from_str("rev-parse"));
                let mut tree_ref = self.target.clone();
                tree_ref.append("^{tree}");
                r.push(tree_ref);
            },
            ProbeStage::WantSynthetic { ancestor, tree } => {
                r.push(String::from_str("commit-tree"));
                r.push(tree.clone());
                r.push(String::from_str("-p"));
                r.push(ancestor.clone());
                r.push(String::from_str("-m"));
                r.push(String::from_str("Temporary commit"));
            },
            ProbeStage::WantCherry { synthetic } => {
                r.push(String::from_str("cherry"));
                r.push(self.base.clone());
                r.push(synthetic.clone());
            },
            ProbeStage::Judged { .. } => {
                proof {
                    assert(false);
                }
            },
        }
        proof {
            assert(views(r@) =~= probe_command(self@));
        }
        r
    }

    /// Feeds the probe the trimmed output of the query it asked for.
    pub fn advance(&mut self, output: &str)
        ensures
            final(self)@ == probe_step(old(self)@, output@),
    {
        match &self.stage {
            ProbeStage::WantAncestor => {
                self.stage = ProbeStage::WantTree { ancestor: String::from_str(output) };
            },
            ProbeStage::WantTree { ancestor } => {
                let a = ancestor.clone();
                self.stage = ProbeStage::WantSynthetic {
                    ancestor: a,
                    tree: String::from_str(output),
                };
            },
            ProbeStage::WantSynthetic { .. } => {
                self.stage = ProbeStage::WantCherry { synthetic: String::from_str(output) };
            },
            ProbeStage::WantCherry { .. } => {
                let squashed = is_squashed_branch(output);
                self.stage = ProbeStage::Judged { squashed };
            },
            ProbeStage::Judged { .. } => {},
        }
    }

    /// The classification, once the probe is done.
    pub fn verdict(&self) -> (r: Option<bool>)
        ensures
            match r {
                Some(squashed) => self@.stage == (ProbeStageView::Judged { squashed }),
                None => !(self@.stage is Judged),
            },
    {
        match &self.stage {
            ProbeStage::Judged { squashed } => Some(*squashed),
            _ => None,
        }
    }
}

/// The names among `names` that were judged squash-merged and differ from the
/// base branch, in their original order. As in [`merged_picks`], an empty
/// entry names no branch and is never picked.
pub open spec fn squashed_picks(names: Seq<Seq<char>>, flags: Seq<bool>, base: Seq<char>) -> Seq<
    Seq<char>,
>
    decreases names.len(),
{
    if names.len() == 0 {
        Seq::empty()
    } else {
        let rest = squashed_picks(names.drop_last(), flags.drop_last(), base);
        if flags.last() && names.last() != base && names.last().len() > 0 {
            rest.push(names.last())
        } else {
            rest
        }
    }
}

/// The branches judged squash-merged: every non-empty local branch name whose
/// squash verdict is positive, except the base branch itself.
/// `squash_verdicts[i]` is the
/// [`SquashProbe`] verdict for `local_branch_names[i]` (any value stands for a
/// name equal to the base branch, which is never probed and never picked).
pub fn pick_squashed_branches(
    base_branch_name: &str,
    local_branch_names: &Vec<String>,
    squash_verdicts: &Vec<bool>,
) -> (r: Vec<String>)
    requires
        local_branch_names@.len() == squash_verdicts@.len(),
    ensures
        views(r@) == squashed_picks(
            views(local_branch_names@),
            squash_verdicts@,
            base_branch_name@,
        ),
{
    let n: usize = local_branch_names.len();
    let mut r: Vec<String> = Vec::new();
    let mut i: usize = 0;
    proof {
        assert(views(r@) =~= Seq::<Seq<char>>::empty());
        assert(views(local_branch_names@).take(0) =~= Seq::<Seq<char>>::empty());
    }
    while i < n
        invariant
            i <= n,
            n == local_branch_names@.len(),
            n == squash_verdicts@.len(),
            views(r@) == squashed_picks(
                views(local_branch_names@).take(i as int),
                squash_verdicts@.take(i as int),
                base_branch_name@,
            ),
        decreases n - i,
    {
        proof {
            let vn = views(local_branch_names@);
            let vf = squash_verdicts@;
            assert(vn.take(i as int + 1).drop_last() =~= vn.take(i as int));
            assert(vf.take(i as int + 1).drop_last() =~= vf.take(i as int));
            assert(vn.take(i as int + 1).last() == vn[i as int]);
            assert(vf.take(i as int + 1).last() == vf[i as int]);
        }
        if squash_verdicts[i] && !str_eq(local_branch_names[i].as_str(), base_branch_name)
            && !local_branch_names[i].as_str().is_empty() {
            let owned = local_branch_names[i].clone();
            proof {
                lemma_views_push(r@, owned);
            }
            r.push(owned);
        }
        i = i + 1;
    }
    proof {
        assert(views(local_branch_names@).take(n as int) =~= views(local_branch_names@));
        assert(squash_verdicts@.take(n as int) =~= squash_verdicts@);
    }
    r
}

/// A non-empty name judged squash-merged is picked, and only names from the
/// list are.
pub proof fn lemma_squashed_picks_membership(
    names: Seq<Seq<char>>,
    flags: Seq<bool>,
    base: Seq<char>,
)
    requires
        names.len() == flags.len(),
    ensures
        forall|x: Seq<char>|
            squashed_picks(names, flags, base).contains(x) <==> (exists|i: int|
                0 <= i < names.len() && names[i] == x && flags[i] && x != base && x.len() > 0),
    decreases names.len(),
{
    if names.len() > 0 {
        lemma_squashed_picks_membership(names.drop_last(), flags.drop_last(), base);
        let picks = squashed_picks(names, flags, base);
        let rest = squashed_picks(names.drop_last(), flags.drop_last(), base);
        assert forall|x: Seq<char>| picks.contains(x) implies (exists|i: int|
            0 <= i < names.len() && names[i] == x && flags[i] && x != base && x.len() > 0) by {
            if flags.last() && names.last() != base && names.last().len() > 0 && x
                == names.last() {
                assert(names[names.len() - 1] == x);
            } else {
                assert(rest.contains(x));
                let i = choose|i: int|
                    0 <= i < names.drop_last().len() && names.drop_last()[i] == x
                        && flags.drop_last()[i] && x != base && x.len() > 0;
                assert(names[i] == x && flags[i]);
            }
        }
        assert forall|x: Seq<char>|
            (exists|i: int|
                0 <= i < names.len() && names[i] == x && flags[i] && x != base && x.len()
                    > 0) implies picks.contains(x) by {
            let i = choose|i: int|
                0 <= i < names.len() && names[i] == x && flags[i] && x != base && x.len() > 0;
            if i == names.len() - 1 {
                assert(picks.last() == x);
                assert(picks.contains(x));
            } else {
                assert(names.drop_last()[i] == x && flags.drop_last()[i]);
                assert(rest.contains(x));
                if flags.last() && names.last() != base && names.last().len() > 0 {
                    let j = choose|j: int| 0 <= j < rest.len() && rest[j] == x;
                    assert(picks[j] == x);
                }
            }
        }
    }
}

} // verus!
