use branch_sweep::classify::collect_deletable;
use branch_sweep::detect::is_squashed_branch;
use branch_sweep::detect::pick_merged_branches;
use branch_sweep::detect::pick_squashed_branches;
use branch_sweep::detect::SquashProbe;
use branch_sweep::text::split_lines;
use branch_sweep::text::str_eq;
use branch_sweep::workflow::classify_input;
use branch_sweep::workflow::recreation_hint;
use branch_sweep::workflow::Action;
use branch_sweep::workflow::ConfirmInput;
use branch_sweep::workflow::Event;
use branch_sweep::workflow::Notice;
use branch_sweep::workflow::RunEnd;
use branch_sweep::workflow::Workflow;

fn strings(items: &[&str]) -> Vec<String> {
    items.iter().map(|s| s.to_string()).collect()
}

/// What a driven run did, in order.
#[derive(Default)]
struct Trace {
    prompts: Vec<String>,
    captures: Vec<Vec<String>>,
    interactives: Vec<Vec<String>>,
    notices: Vec<Notice>,
}

/// Drives a workflow to its end: answers prompts from `inputs` in order and
/// captured commands through `git`.
fn run_workflow<F>(mut w: Workflow, inputs: &[&str], git: F) -> (Trace, RunEnd)
where
    F: Fn(&[String]) -> Result<String, ()>,
{
    let mut trace = Trace::default();
    let mut next_input = 0;
    let mut event = Event::Proceed;
    for _ in 0..1000 {
        let action = w.step(event);
        event = match action {
            Action::Prompt { branch } => {
                trace.prompts.push(branch);
                let line = inputs[next_input];
                next_input += 1;
                Event::Line { input: format!("{}\n", line) }
            }
            Action::RunCapture { args } => {
                trace.captures.push(args.clone());
                match git(&args) {
                    Ok(text) => Event::Output { text },
                    Err(()) => Event::Failure,
                }
            }
            Action::RunInteractive { args } => {
                trace.interactives.push(args);
                Event::DisplayDone
            }
            Action::Report { notice } => {
                trace.notices.push(notice);
                Event::Proceed
            }
            Action::Stop { end } => {
                assert_eq!(w.run_end(), Some(end));
                return (trace, end);
            }
        };
    }
    panic!("workflow did not stop");
}

/// A store whose rev-parse answers `hash-<branch>` and whose deletions
/// succeed.
fn plain_git(args: &[String]) -> Result<String, ()> {
    match args[0].as_str() {
        "rev-parse" => Ok(format!("hash-{}", args[1])),
        "branch" => Ok(String::new()),
        _ => panic!("unexpected command"),
    }
}

fn deleted_branches(trace: &Trace) -> Vec<(String, String)> {
    trace
        .notices
        .iter()
        .filter_map(|n| match n {
            Notice::Deleted { branch, hash } => Some((branch.clone(), hash.clone())),
            _ => None,
        })
        .collect()
}

#[test]
fn auto_confirm_deletes_all_but_current() {
    let w = Workflow::new("main", "main", true, strings(&["feat-a", "feat-b"]));
    let (trace, end) = run_workflow(w, &[], plain_git);
    assert_eq!(end, RunEnd::Completed);
    assert!(trace.prompts.is_empty());
    assert_eq!(
        deleted_branches(&trace),
        vec![
            ("feat-a".to_string(), "hash-feat-a".to_string()),
            ("feat-b".to_string(), "hash-feat-b".to_string()),
        ]
    );
}

#[test]
fn current_branch_reported_and_kept() {
    let w = Workflow::new("main", "feat-a", true, strings(&["feat-a", "feat-b"]));
    let (trace, end) = run_workflow(w, &[], plain_git);
    assert_eq!(end, RunEnd::Completed);
    assert!(trace.prompts.is_empty());
    assert!(trace
        .notices
        .iter()
        .any(|n| matches!(n, Notice::SkippedCurrent { branch } if branch == "feat-a")));
    assert_eq!(deleted_branches(&trace), vec![("feat-b".to_string(), "hash-feat-b".to_string())]);
    // No command ever asked to delete the checked-out branch.
    for args in &trace.captures {
        if args[0] == "branch" {
            assert_eq!(args[1], "-D");
            assert_ne!(args[2], "feat-a");
            assert_ne!(args[2], "main");
        }
    }
}

#[test]
fn base_entry_skipped_defensively() {
    let w = Workflow::new("main", "other", true, strings(&["main", "feat-a"]));
    let (trace, end) = run_workflow(w, &[], plain_git);
    assert_eq!(end, RunEnd::Completed);
    assert_eq!(deleted_branches(&trace), vec![("feat-a".to_string(), "hash-feat-a".to_string())]);
}

#[test]
fn quit_stops_remaining_candidates() {
    let w = Workflow::new("main", "main", false, strings(&["feat-a", "feat-b", "feat-c"]));
    let (trace, end) = run_workflow(w, &["y", "q"], plain_git);
    assert_eq!(end, RunEnd::UserQuit);
    // The first deletion stands; nothing after the quit was touched.
    assert_eq!(deleted_branches(&trace), vec![("feat-a".to_string(), "hash-feat-a".to_string())]);
    assert_eq!(trace.prompts, strings(&["feat-a", "feat-b"]));
}

#[test]
fn no_keeps_branch_and_advances() {
    let w = Workflow::new("main", "main", false, strings(&["feat-a", "feat-b"]));
    let (trace, end) = run_workflow(w, &["n", "y"], plain_git);
    assert_eq!(end, RunEnd::Completed);
    assert!(trace.notices.iter().any(|n| matches!(n, Notice::SkippedByUser)));
    assert_eq!(deleted_branches(&trace), vec![("feat-b".to_string(), "hash-feat-b".to_string())]);
}

#[test]
fn unrecognized_input_reprompts_without_change() {
    let w = Workflow::new("main", "main", false, strings(&["feat-a"]));
    let (trace, end) = run_workflow(w, &["bogus", "wat", "n"], plain_git);
    assert_eq!(end, RunEnd::Completed);
    assert_eq!(trace.prompts, strings(&["feat-a", "feat-a", "feat-a"]));
    assert!(deleted_branches(&trace).is_empty());
    assert!(trace.captures.is_empty());
}

#[test]
fn log_and_diff_redisplay_then_reprompt() {
    let w = Workflow::new("main", "main", false, strings(&["feat-a"]));
    let (trace, end) = run_workflow(w, &["l", "d", "n"], plain_git);
    assert_eq!(end, RunEnd::Completed);
    assert_eq!(trace.prompts, strings(&["feat-a", "feat-a", "feat-a"]));
    assert_eq!(
        trace.interactives,
        vec![strings(&["log", "feat-a", "-100"]), strings(&["show", "feat-a", "-v"])]
    );
    assert!(deleted_branches(&trace).is_empty());
}

#[test]
fn help_shows_legend_then_reprompts() {
    let w = Workflow::new("main", "main", false, strings(&["feat-a"]));
    let (trace, end) = run_workflow(w, &["h", "y"], plain_git);
    assert_eq!(end, RunEnd::Completed);
    assert!(trace.notices.iter().any(|n| matches!(n, Notice::Help)));
    assert_eq!(trace.prompts, strings(&["feat-a", "feat-a"]));
    assert_eq!(deleted_branches(&trace), vec![("feat-a".to_string(), "hash-feat-a".to_string())]);
}

#[test]
fn empty_set_completes_without_prompts() {
    let w = Workflow::new("main", "main", false, Vec::new());
    let (trace, end) = run_workflow(w, &[], plain_git);
    assert_eq!(end, RunEnd::Completed);
    assert!(trace.prompts.is_empty());
    assert!(trace.captures.is_empty());
    assert!(trace.notices.is_empty());
}

#[test]
fn command_failure_aborts_run() {
    let w = Workflow::new("main", "main", true, strings(&["feat-a", "feat-b"]));
    let (trace, end) = run_workflow(w, &[], |_args| Err(()));
    assert_eq!(end, RunEnd::Failed);
    assert!(deleted_branches(&trace).is_empty());
}

#[test]
fn deletion_failure_aborts_run() {
    let w = Workflow::new("main", "main", true, strings(&["feat-a", "feat-b"]));
    let (trace, end) = run_workflow(w, &[], |args| match args[0].as_str() {
        "rev-parse" => Ok(format!("hash-{}", args[1])),
        _ => Err(()),
    });
    assert_eq!(end, RunEnd::Failed);
    assert!(deleted_branches(&trace).is_empty());
}

#[test]
fn full_scenario_squash_and_true_merge() {
    // Base `main`; `feat-a` is truly merged, `feat-b` squash-merged,
    // `feat-c` unmerged; auto-confirm on.
    let base = "main";
    let merged = pick_merged_branches(base, "feat-a\nmain");
    assert_eq!(merged, strings(&["feat-a"]));

    let locals = split_lines("feat-a\nfeat-b\nfeat-c\nmain");
    let mut flags = Vec::new();
    for name in &locals {
        if str_eq(name, base) {
            flags.push(false);
            continue;
        }
        let mut probe = SquashProbe::new(base, name);
        probe.advance("ancestor");
        probe.advance("tree");
        probe.advance("tmp");
        // Only feat-b's synthetic commit is patch-equivalent upstream.
        let cherry = if name == "feat-b" { "- tmp" } else { "+ tmp" };
        assert_eq!(probe.verdict(), None);
        probe.advance(cherry);
        flags.push(probe.verdict().unwrap());
    }
    let squashed = pick_squashed_branches(base, &locals, &flags);
    assert_eq!(squashed, strings(&["feat-b"]));

    let deletable = collect_deletable(base, &merged, &squashed);
    assert_eq!(deletable, strings(&["feat-a", "feat-b"]));

    let w = Workflow::new(base, "main", true, deletable);
    let (trace, end) = run_workflow(w, &[], plain_git);
    assert_eq!(end, RunEnd::Completed);
    assert!(trace.prompts.is_empty());
    assert_eq!(
        deleted_branches(&trace),
        vec![
            ("feat-a".to_string(), "hash-feat-a".to_string()),
            ("feat-b".to_string(), "hash-feat-b".to_string()),
        ]
    );
    // The unmerged branch is untouched and never mentioned to the user.
    for args in &trace.captures {
        assert!(!args.iter().any(|a| a.contains("feat-c")));
    }
    for notice in &trace.notices {
        match notice {
            Notice::SkippedCurrent { branch } => assert_ne!(branch, "feat-c"),
            Notice::Deleted { branch, .. } => assert_ne!(branch, "feat-c"),
            _ => {}
        }
    }
}

#[test]
fn classify_input_mapping() {
    assert_eq!(classify_input("y\n"), ConfirmInput::Yes);
    assert_eq!(classify_input("yes\n"), ConfirmInput::Yes);
    assert_eq!(classify_input("n\n"), ConfirmInput::No);
    assert_eq!(classify_input("no"), ConfirmInput::No);
    assert_eq!(classify_input("l\n"), ConfirmInput::Log);
    assert_eq!(classify_input("log\n"), ConfirmInput::Log);
    assert_eq!(classify_input("d\n"), ConfirmInput::Diff);
    assert_eq!(classify_input("diff\n"), ConfirmInput::Diff);
    assert_eq!(classify_input("q\n"), ConfirmInput::Quit);
    assert_eq!(classify_input("quit\n"), ConfirmInput::Quit);
    assert_eq!(classify_input("h\n"), ConfirmInput::Help);
    assert_eq!(classify_input("help\n"), ConfirmInput::Help);
    // Matching is case-sensitive and exact.
    assert_eq!(classify_input("Y\n"), ConfirmInput::Other);
    assert_eq!(classify_input("YES\n"), ConfirmInput::Other);
    assert_eq!(classify_input(" y\n"), ConfirmInput::Other);
    assert_eq!(classify_input("\n"), ConfirmInput::Other);
    assert_eq!(classify_input("anything else\n"), ConfirmInput::Other);
}

#[test]
fn squash_marker_interpretation() {
    assert!(is_squashed_branch("- deadbeef"));
    assert!(!is_squashed_branch("+ deadbeef"));
}

#[test]
fn recreation_hint_exact() {
    assert_eq!(recreation_hint("feat-a", "abc123"), "git branch feat-a abc123");
}
