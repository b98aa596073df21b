//! The deletion workflow: one candidate branch at a time, with an interactive
//! confirmation, as an explicit state machine.
//!
//! The surrounding program owns the terminal and the version-control tool; the
//! [`Workflow`] owns every decision. Each [`Workflow::step`] consumes the
//! event the previous [`Action`] asked for and answers with the next action:
//! prompt the user, run a command and capture its output, run a command on the
//! terminal, print a notice, or stop. Quitting is an ordinary [`Action::Stop`]
//! answer rather than an abrupt process exit, so callers observe it.

use vstd::prelude::*;
use vstd::string::*;

use crate::text::str_eq;
use crate::text::strip_trailing_newlines;
use crate::text::trim_trailing_newlines;
use crate::text::views;

verus! {

/// One recognized confirmation command.
#[derive(Debug, Clone, Copy, PartialEq, Eq)]
pub enum ConfirmInput {
    /// `y` / `yes`: delete the candidate.
    Yes,
    /// `n` / `no`: keep the candidate, go on to the next.
    No,
    /// `l` / `log`: show the candidate's history, then ask again.
    Log,
    /// `d` / `diff`: show the candidate's tip commit and diff, then ask again.
    Diff,
    /// `q` / `quit`: end the whole run at once.
    Quit,
    /// `h` / `help`: show the command legend, then ask again.
    Help,
    /// Anything else: ask again.
    Other,
}

/// How a finished run ended.
#[derive(Debug, Clone, Copy, PartialEq, Eq)]
pub enum RunEnd {
    /// Every candidate was processed.
    Completed,
    /// The user quit; later candidates were not touched.
    UserQuit,
    /// A command failed; the run must not continue.
    Failed,
}

/// What the classification of one input line is, after stripping trailing
/// newlines. Matching is exact and case-sensitive.
pub open spec fn spec_classify_input(s: Seq<char>) -> ConfirmInput {
    if s == "y"@ || s == "yes"@ {
        ConfirmInput::Yes
    } else if s == "n"@ || s == "no"@ {
        ConfirmInput::No
    } else if s == "l"@ || s == "log"@ {
        ConfirmInput::Log
    } else if s == "d"@ || s == "diff"@ {
        ConfirmInput::Diff
    } else if s == "q"@ || s == "quit"@ {
        ConfirmInput::Quit
    } else if s == "h"@ || s == "help"@ {
        ConfirmInput::Help
    } else {
        ConfirmInput::Other
    }
}

/// Classifies one raw input line.
pub fn classify_input(line: &str) -> (r: ConfirmInput)
    ensures
        r == spec_classify_input(strip_trailing_newlines(line@)),
{
    let t = trim_trailing_newlines(line);
    let s = t.as_str();
    if str_eq(s, "y") || str_eq(s, "yes") {
        ConfirmInput::Yes
    } else if str_eq(s, "n") || str_eq(s, "no") {
        ConfirmInput::No
    } else if str_eq(s, "l") || str_eq(s, "log") {
        ConfirmInput::Log
    } else if str_eq(s, "d") || str_eq(s, "diff") {
        ConfirmInput::Diff
    } else if str_eq(s, "q") || str_eq(s, "quit") {
        ConfirmInput::Quit
    } else if str_eq(s, "h") || str_eq(s, "help") {
        ConfirmInput::Help
    } else {
        ConfirmInput::Other
    }
}

/// Arguments that resolve a branch's tip commit hash.
pub open spec fn rev_parse_args_spec(branch: Seq<char>) -> Seq<Seq<char>> {
    seq!["rev-parse"@, branch]
}

/// Arguments that force-delete a branch reference.
pub open spec fn delete_args_spec(branch: Seq<char>) -> Seq<Seq<char>> {
    seq!["branch"@, "-D"@, branch]
}

/// Arguments that show a branch's history, capped at 100 entries.
pub open spec fn log_args_spec(branch: Seq<char>) -> Seq<Seq<char>> {
    seq!["log"@, branch, "-100"@]
}

/// Arguments that show a branch's tip commit and its diff.
pub open spec fn show_args_spec(branch: Seq<char>) -> Seq<Seq<char>> {
    seq!["show"@, branch, "-v"@]
}

/// Builds [`rev_parse_args_spec`].
pub fn rev_parse_args(branch_name: &str) -> (r: Vec<String>)
    ensures
        views(r@) == rev_parse_args_spec(branch_name@),
{
    let mut r: Vec<String> = Vec::new();
    r.push(String::from_str("rev-parse"));
    r.push(String::from_str(branch_name));
    proof {
        assert(views(r@) =~= rev_parse_args_spec(branch_name@));
    }
    r
}

/// Builds [`delete_args_spec`].
pub fn delete_args(branch_name: &str) -> (r: Vec<String>)
    ensures
        views(r@) == delete_args_spec(branch_name@),
{
    let mut r: Vec<String> = Vec::new();
    r.push(String::from_str("branch"));
    r.push(String::from_str("-D"));
    r.push(String::from_str(branch_name));
    proof {
        assert(views(r@) =~= delete_args_spec(branch_name@));
    }
    r
}

/// Builds [`log_args_spec`].
pub fn log_args(branch_name: &str) -> (r: Vec<String>)
    ensures
        views(r@) == log_args_spec(branch_name@),
{
    let mut r: Vec<String> = Vec::new();
    r.push(String::from_str("log"));
    r.push(String::from_str(branch_name));
    r.push(String::from_str("-100"));
    proof {
        assert(views(r@) =~= log_args_spec(branch_name@));
    }
    r
}

/// Builds [`show_args_spec`].
pub fn show_args(branch_name: &str) -> (r: Vec<String>)
    ensures
        views(r@) == show_args_spec(branch_name@),
{
    let mut r: Vec<String> = Vec::new();
    r.push(String::from_str("show"));
    r.push(String::from_str(branch_name));
    r.push(String::from_str("-v"));
    proof {
        assert(views(r@) =~= show_args_spec(branch_name@));
    }
    r
}

/// The exact command that would recreate a deleted branch at its old tip.
pub fn recreation_hint(branch_name: &str, commit_hash: &str) -> (r: String)
    ensures
        r@ == "git branch "@ + branch_name@ + " "@ + commit_hash@,
{
    let mut s = String::from_str("git branch ");
    s.append(branch_name);
    s.append(" ");
    s.append(commit_hash);
    s
}

/// Something the surrounding program must print.
#[derive(Debug, Clone, PartialEq, Eq)]
pub enum Notice {
    /// The candidate is the currently checked-out branch and is kept.
    SkippedCurrent { branch: String },
    /// The user declined; the candidate is kept.
    SkippedByUser,
    /// The candidate was deleted; `hash` was its tip, for the recreation hint.
    Deleted { branch: String, hash: String },
    /// The command legend.
    Help,
}

pub ghost enum NoticeView {
    SkippedCurrent { branch: Seq<char> },
    SkippedByUser,
    Deleted { branch: Seq<char>, hash: Seq<char> },
    Help,
}

impl View for Notice {
    type V = NoticeView;

    open spec fn view(&self) -> NoticeView {
        match self {
            Notice::SkippedCurrent { branch } => (NoticeView::SkippedCurrent { branch: branch@ }),
            Notice::SkippedByUser => NoticeView::SkippedByUser,
            Notice::Deleted { branch, hash } => (NoticeView::Deleted {
                branch: branch@,
                hash: hash@,
            }),
            Notice::Help => NoticeView::Help,
        }
    }
}

/// What the surrounding program must do next, and which [`Event`] it owes in
/// return.
#[derive(Debug, Clone, PartialEq, Eq)]
pub enum Action {
    /// Ask whether to delete `branch` and read one line: answer
    /// [`Event::Line`].
    Prompt { branch: String },
    /// Run the tool with `args`, capturing trimmed output: answer
    /// [`Event::Output`] on success, [`Event::Failure`] otherwise.
    RunCapture { args: Vec<String> },
    /// Run the tool with `args` on the inherited terminal: answer
    /// [`Event::DisplayDone`] when it ran (a non-zero exit is only a
    /// warning), [`Event::Failure`] if it could not run at all.
    RunInteractive { args: Vec<String> },
    /// Print the notice: answer [`Event::Proceed`].
    Report { notice: Notice },
    /// The run is over; no answer is expected.
    Stop { end: RunEnd },
}

pub ghost enum ActionView {
    Prompt { branch: Seq<char> },
    RunCapture { args: Seq<Seq<char>> },
    RunInteractive { args: Seq<Seq<char>> },
    Report { notice: NoticeView },
    Stop { end: RunEnd },
}

impl View for Action {
    type V = ActionView;

    open spec fn view(&self) -> ActionView {
        match self {
            Action::Prompt { branch } => (ActionView::Prompt { branch: branch@ }),
            Action::RunCapture { args } => (ActionView::RunCapture { args: views(args@) }),
            Action::RunInteractive { args } => (ActionView::RunInteractive { args: views(args@) }),
            Action::Report { notice } => (ActionView::Report { notice: notice@ }),
            Action::Stop { end } => (ActionView::Stop { end: *end }),
        }
    }
}

/// The answer to the pending [`Action`].
#[derive(Debug, Clone, PartialEq, Eq)]
pub enum Event {
    /// Starts the run, and acknowledges a [`Action::Report`].
    Proceed,
    /// The line read after a [`Action::Prompt`], trailing newline and all.
    Line { input: String },
    /// The trimmed output of a successful [`Action::RunCapture`].
    Output { text: String },
    /// A [`Action::RunCapture`] failed, or a [`Action::RunInteractive`]
    /// could not run.
    Failure,
    /// A [`Action::RunInteractive`] ran to its end.
    DisplayDone,
}

pub ghost enum EventView {
    Proceed,
    Line { input: Seq<char> },
    Output { text: Seq<char> },
    Failure,
    DisplayDone,
}

impl View for Event {
    type V = EventView;

    open spec fn view(&self) -> EventView {
        match self {
            Event::Proceed => EventView::Proceed,
            Event::Line { input } => (EventView::Line { input: input@ }),
            Event::Output { text } => (EventView::Output { text: text@ }),
            Event::Failure => EventView::Failure,
            Event::DisplayDone => EventView::DisplayDone,
        }
    }
}

/// Where the workflow stands between two steps.
enum Phase {
    /// Deciding what to do with the candidate at `index`.
    Choosing,
    /// A prompt for the candidate at `index` is out.
    Confirming,
    /// The tip hash of the candidate at `index` was asked for.
    FetchingHash,
    /// The deletion of the candidate at `index` was asked for; `hash` is its
    /// tip, kept for the recreation hint.
    Deleting { hash: String },
    /// A history or diff display for the candidate at `index` is running.
    Displaying,
    /// The run is over.
    Finished { end: RunEnd },
}

pub ghost enum PhaseView {
    Choosing,
    Confirming,
    FetchingHash,
    Deleting { hash: Seq<char> },
    Displaying,
    Finished { end: RunEnd },
}

impl View for Phase {
    type V = PhaseView;

    closed spec fn view(&self) -> PhaseView {
        match self {
            Phase::Choosing => PhaseView::Choosing,
            Phase::Confirming => PhaseView::Confirming,
            Phase::FetchingHash => PhaseView::FetchingHash,
            Phase::Deleting { hash } => (PhaseView::Deleting { hash: hash@ }),
            Phase::Displaying => PhaseView::Displaying,
            Phase::Finished { end } => (PhaseView::Finished { end: *end }),
        }
    }
}

pub ghost struct WorkflowView {
    pub base: Seq<char>,
    pub current: Seq<char>,
    pub auto_confirm: bool,
    pub branches: Seq<Seq<char>>,
    pub index: int,
    pub phase: PhaseView,
}

/// A phase in which one particular candidate is being worked on.
pub open spec fn busy(p: PhaseView) -> bool {
    p is Confirming || p is FetchingHash || p is Deleting || p is Displaying
}

/// The workflow's invariant: the position is in range; while a candidate is
/// being worked on it is neither the base branch nor the checked-out branch;
/// and under auto-confirm no prompt-related phase is ever entered.
pub open spec fn wf(w: WorkflowView) -> bool {
    &&& 0 <= w.index <= w.branches.len()
    &&& busy(w.phase) ==> {
        &&& w.index < w.branches.len()
        &&& w.branches[w.index] != w.base
        &&& w.branches[w.index] != w.current
    }
    &&& w.auto_confirm ==> !(w.phase is Confirming) && !(w.phase is Displaying)
}

/// Which event answers the pending action of each phase. A finished workflow
/// expects nothing.
pub open spec fn expects(p: PhaseView, e: EventView) -> bool {
    match p {
        PhaseView::Choosing => e is Proceed,
        PhaseView::Confirming => e is Line,
        PhaseView::FetchingHash => e is Output || e is Failure,
        PhaseView::Deleting { .. } => e is Output || e is Failure,
        PhaseView::Displaying => e is DisplayDone || e is Failure,
        PhaseView::Finished { .. } => false,
    }
}

/// The first position at or after `i` whose branch is not the base branch.
pub open spec fn next_candidate(branches: Seq<Seq<char>>, base: Seq<char>, i: int) -> int
    decreases branches.len() - i
        when 0 <= i <= branches.len()
{
    if i >= branches.len() {
        i
    } else if branches[i] == base {
        next_candidate(branches, base, i + 1)
    } else {
        i
    }
}

/// What one step does from the `Choosing` phase: skip past base-branch
/// entries silently; stop when the candidates are exhausted; report and skip
/// the checked-out branch; otherwise ask for the tip hash at once
/// (auto-confirm) or put the prompt out.
pub open spec fn choose_step(w: WorkflowView) -> (WorkflowView, ActionView) {
    let j = next_candidate(w.branches, w.base, w.index);
    if j >= w.branches.len() {
        (
            (WorkflowView { index: j, phase: PhaseView::Finished { end: RunEnd::Completed }, ..w }),
            (ActionView::Stop { end: RunEnd::Completed }),
        )
    } else if w.branches[j] == w.current {
        (
            (WorkflowView { index: j + 1, phase: PhaseView::Choosing, ..w }),
            (ActionView::Report {
                notice: NoticeView::SkippedCurrent { branch: w.branches[j] },
            }),
        )
    } else if w.auto_confirm {
        (
            (WorkflowView { index: j, phase: PhaseView::FetchingHash, ..w }),
            (ActionView::RunCapture { args: rev_parse_args_spec(w.branches[j]) }),
        )
    } else {
        (
            (WorkflowView { index: j, phase: PhaseView::Confirming, ..w }),
            (ActionView::Prompt { branch: w.branches[j] }),
        )
    }
}

/// What one step does with an input line in the `Confirming` phase.
pub open spec fn confirm_step(w: WorkflowView, input: Seq<char>) -> (WorkflowView, ActionView) {
    let b = w.branches[w.index];
    match spec_classify_input(strip_trailing_newlines(input)) {
        ConfirmInput::Yes => (
            (WorkflowView { phase: PhaseView::FetchingHash, ..w }),
            (ActionView::RunCapture { args: rev_parse_args_spec(b) }),
        ),
        ConfirmInput::No => (
            (WorkflowView { index: w.index + 1, phase: PhaseView::Choosing, ..w }),
            (ActionView::Report { notice: NoticeView::SkippedByUser }),
        ),
        ConfirmInput::Log => (
            (WorkflowView { phase: PhaseView::Displaying, ..w }),
            (ActionView::RunInteractive { args: log_args_spec(b) }),
        ),
        ConfirmInput::Diff => (
            (WorkflowView { phase: PhaseView::Displaying, ..w }),
            (ActionView::RunInteractive { args: show_args_spec(b) }),
        ),
        ConfirmInput::Quit => (
            (WorkflowView { phase: PhaseView::Finished { end: RunEnd::UserQuit }, ..w }),
            (ActionView::Stop { end: RunEnd::UserQuit }),
        ),
        ConfirmInput::Help => (
            (WorkflowView { phase: PhaseView::Choosing, ..w }),
            (ActionView::Report { notice: NoticeView::Help }),
        ),
        ConfirmInput::Other => (w, (ActionView::Prompt { branch: b })),
    }
}

/// The full transition function: what the next state and the next action are
/// for each phase and the event that answers it. Phase-event pairs outside
/// [`expects`] (which [`Workflow::step`] rules out) map to a failed stop.
pub open spec fn spec_step(w: WorkflowView, e: EventView) -> (WorkflowView, ActionView) {
    let fail = (
        (WorkflowView { phase: PhaseView::Finished { end: RunEnd::Failed }, ..w }),
        (ActionView::Stop { end: RunEnd::Failed }),
    );
    match w.phase {
        PhaseView::Choosing => if e is Proceed {
            choose_step(w)
        } else {
            fail
        },
        PhaseView::Confirming => match e {
            EventView::Line { input } => confirm_step(w, input),
            _ => fail,
        },
        PhaseView::FetchingHash => match e {
            EventView::Output { text } => (
                (WorkflowView { phase: PhaseView::Deleting { hash: text }, ..w }),
                (ActionView::RunCapture { args: delete_args_spec(w.branches[w.index]) }),
            ),
            _ => fail,
        },
        PhaseView::Deleting { hash } => match e {
            EventView::Output { .. } => (
                (WorkflowView { index: w.index + 1, phase: PhaseView::Choosing, ..w }),
                (ActionView::Report {
                    notice: NoticeView::Deleted { branch: w.branches[w.index], hash: hash },
                }),
            ),
            _ => fail,
        },
        PhaseView::Displaying => match e {
            EventView::DisplayDone => (
                (WorkflowView { phase: PhaseView::Confirming, ..w }),
                (ActionView::Prompt { branch: w.branches[w.index] }),
            ),
            _ => fail,
        },
        PhaseView::Finished { .. } => fail,
    }
}

/// A deletion command never names the base branch or the currently
/// checked-out branch: whatever the event, an answer that asks to
/// force-delete `b` has `b` distinct from both.
pub proof fn lemma_never_deletes_base_or_current(w: WorkflowView, e: EventView, b: Seq<char>)
    requires
        wf(w),
        expects(w.phase, e),
        spec_step(w, e).1 == (ActionView::RunCapture { args: delete_args_spec(b) }),
    ensures
        b != w.base,
        b != w.current,
{
    // The only answer of that shape comes from the `FetchingHash` phase —
    // the hash queries have two arguments, not three — and there the
    // invariant keeps the candidate away from both branches.
    assert(delete_args_spec(b).len() == 3);
    if w.phase is FetchingHash {
        assert(delete_args_spec(w.branches[w.index])[2] == w.branches[w.index]);
        assert(delete_args_spec(b)[2] == b);
        assert(b == w.branches[w.index]);
    } else {
        assert(false);
    }
}

/// Under auto-confirm the workflow never puts a prompt out.
pub proof fn lemma_auto_never_prompts(w: WorkflowView, e: EventView)
    requires
        wf(w),
        expects(w.phase, e),
        w.auto_confirm,
    ensures
        !(spec_step(w, e).1 is Prompt),
{
}

/// `quit` ends the whole run at once: the workflow stops, keeps its
/// position, and accepts no further event — so what was already deleted
/// stays deleted, and no later candidate is touched.
pub proof fn lemma_quit_ends_run(w: WorkflowView, input: Seq<char>)
    requires
        wf(w),
        w.phase is Confirming,
        spec_classify_input(strip_trailing_newlines(input)) == ConfirmInput::Quit,
    ensures
        spec_step(w, (EventView::Line { input })).1 == (ActionView::Stop {
            end: RunEnd::UserQuit,
        }),
        spec_step(w, (EventView::Line { input })).0.phase == (PhaseView::Finished {
            end: RunEnd::UserQuit,
        }),
        spec_step(w, (EventView::Line { input })).0.index == w.index,
        spec_step(w, (EventView::Line { input })).0.branches == w.branches,
        forall|later: EventView| !expects(spec_step(w, (EventView::Line { input })).0.phase, later),
{
}

/// Unrecognized input re-prompts for the same candidate with no state
/// change, and `log` / `diff` only display: neither ever advances past the
/// current candidate.
pub proof fn lemma_reprompt_keeps_state(w: WorkflowView, input: Seq<char>)
    requires
        wf(w),
        w.phase is Confirming,
    ensures
        spec_classify_input(strip_trailing_newlines(input)) == ConfirmInput::Other ==> (
        spec_step(w, (EventView::Line { input })).0 == w && spec_step(
            w,
            (EventView::Line { input }),
        ).1 == (ActionView::Prompt { branch: w.branches[w.index] })),
        (spec_classify_input(strip_trailing_newlines(input)) == ConfirmInput::Log
            || spec_classify_input(strip_trailing_newlines(input)) == ConfirmInput::Diff) ==> (
        spec_step(w, (EventView::Line { input })).0.index == w.index && spec_step(
            w,
            (EventView::Line { input }),
        ).0.branches == w.branches),
{
}

/// When a display sub-command ends, the same candidate is prompted again.
pub proof fn lemma_display_returns_to_prompt(w: WorkflowView)
    requires
        wf(w),
        w.phase is Displaying,
    ensures
        spec_step(w, EventView::DisplayDone).0.index == w.index,
        spec_step(w, EventView::DisplayDone).0.branches == w.branches,
        spec_step(w, EventView::DisplayDone).1 == (ActionView::Prompt {
            branch: w.branches[w.index],
        }),
{
}

/// The checked-out branch, met as the next candidate, is skipped with a
/// notice: it never reaches confirmation, let alone deletion.
pub proof fn lemma_current_branch_skipped(w: WorkflowView)
    requires
        wf(w),
        w.phase is Choosing,
        next_candidate(w.branches, w.base, w.index) < w.branches.len(),
        w.branches[next_candidate(w.branches, w.base, w.index)] == w.current,
    ensures
        spec_step(w, EventView::Proceed).1 == (ActionView::Report {
            notice: (NoticeView::SkippedCurrent { branch: w.current }),
        }),
        spec_step(w, EventView::Proceed).0.index == next_candidate(w.branches, w.base, w.index)
            + 1,
        spec_step(w, EventView::Proceed).0.phase is Choosing,
{
}

/// Under auto-confirm, the next candidate that is neither the base branch
/// nor the checked-out branch is handled in one round of three steps, with
/// no prompt: its tip hash is asked for, its forced deletion is asked for,
/// and the deletion is reported together with that hash — after which the
/// workflow stands just past the candidate, choosing again. The whole-run
/// consequence is [`lemma_auto_run_deletes_exactly`].
pub proof fn lemma_auto_round_deletes(w: WorkflowView, hash: Seq<char>, confirmation: Seq<char>)
    requires
        wf(w),
        w.auto_confirm,
        w.phase is Choosing,
        next_candidate(w.branches, w.base, w.index) < w.branches.len(),
        w.branches[next_candidate(w.branches, w.base, w.index)] != w.current,
    ensures
        spec_step(w, EventView::Proceed).1 == (ActionView::RunCapture {
            args: rev_parse_args_spec(w.branches[next_candidate(w.branches, w.base, w.index)]),
        }),
        spec_step(spec_step(w, EventView::Proceed).0, (EventView::Output { text: hash })).1
            == (ActionView::RunCapture {
            args: delete_args_spec(w.branches[next_candidate(w.branches, w.base, w.index)]),
        }),
        spec_step(
            spec_step(spec_step(w, EventView::Proceed).0, (EventView::Output { text: hash })).0,
            (EventView::Output { text: confirmation }),
        ).1 == (ActionView::Report {
            notice: (NoticeView::Deleted {
                branch: w.branches[next_candidate(w.branches, w.base, w.index)],
                hash: hash,
            }),
        }),
        spec_step(
            spec_step(spec_step(w, EventView::Proceed).0, (EventView::Output { text: hash })).0,
            (EventView::Output { text: confirmation }),
        ).0 == (WorkflowView {
            index: next_candidate(w.branches, w.base, w.index) + 1,
            phase: PhaseView::Choosing,
            ..w
        }),
{
}

/// With the candidates exhausted, one step reports completion and the
/// workflow accepts no further event.
pub proof fn lemma_exhausted_completes(w: WorkflowView)
    requires
        wf(w),
        w.phase is Choosing,
        next_candidate(w.branches, w.base, w.index) >= w.branches.len(),
    ensures
        spec_step(w, EventView::Proceed).1 == (ActionView::Stop { end: RunEnd::Completed }),
        spec_step(w, EventView::Proceed).0.phase == (PhaseView::Finished {
            end: RunEnd::Completed,
        }),
        forall|later: EventView| !expects(spec_step(w, EventView::Proceed).0.phase, later),
{
}

/// `next_candidate` stays in range, lands on a non-base branch when it lands
/// at all, and skips only base-branch entries.
pub proof fn lemma_next_candidate(branches: Seq<Seq<char>>, base: Seq<char>, i: int)
    requires
        0 <= i <= branches.len(),
    ensures
        i <= next_candidate(branches, base, i) <= branches.len(),
        next_candidate(branches, base, i) < branches.len() ==> branches[next_candidate(
            branches,
            base,
            i,
        )] != base,
        forall|k: int| i <= k < next_candidate(branches, base, i) ==> branches[k] == base,
    decreases branches.len() - i,
{
    if i < branches.len() && branches[i] == base {
        lemma_next_candidate(branches, base, i + 1);
    }
}

/// One step from any well-formed state leaves a well-formed state.
pub proof fn lemma_step_preserves_wf(w: WorkflowView, e: EventView)
    requires
        wf(w),
        expects(w.phase, e),
    ensures
        wf(spec_step(w, e).0),
{
    if w.phase is Choosing {
        lemma_next_candidate(w.branches, w.base, w.index);
    }
}

/// The non-base, non-current members of `branches` from position `i` on, in
/// order: exactly the branches an auto-confirmed run is to delete.
pub open spec fn auto_deletions(
    branches: Seq<Seq<char>>,
    base: Seq<char>,
    current: Seq<char>,
    i: int,
) -> Seq<Seq<char>>
    decreases branches.len() - i
        when 0 <= i <= branches.len()
{
    if i >= branches.len() {
        Seq::empty()
    } else if branches[i] == base || branches[i] == current {
        auto_deletions(branches, base, current, i + 1)
    } else {
        seq![branches[i]] + auto_deletions(branches, base, current, i + 1)
    }
}

/// Skipping base-branch entries changes nothing about what is to be deleted.
proof fn lemma_auto_deletions_skip_base(
    branches: Seq<Seq<char>>,
    base: Seq<char>,
    current: Seq<char>,
    i: int,
)
    requires
        0 <= i <= branches.len(),
    ensures
        auto_deletions(branches, base, current, i) == auto_deletions(
            branches,
            base,
            current,
            next_candidate(branches, base, i),
        ),
    decreases branches.len() - i,
{
    if i < branches.len() && branches[i] == base {
        lemma_auto_deletions_skip_base(branches, base, current, i + 1);
    }
}

/// Step `k` of a run: the state expects the event, and the next state and
/// the answered action are what [`spec_step`] says.
pub open spec fn run_step_ok(
    states: Seq<WorkflowView>,
    evs: Seq<EventView>,
    acts: Seq<ActionView>,
    k: int,
) -> bool {
    &&& expects(states[k].phase, evs[k])
    &&& states[k + 1] == spec_step(states[k], evs[k]).0
    &&& acts[k] == spec_step(states[k], evs[k]).1
}

/// A whole run: `states[k]` answers `acts[k]` to `evs[k]` and becomes
/// `states[k + 1]`.
pub open spec fn is_run(
    states: Seq<WorkflowView>,
    evs: Seq<EventView>,
    acts: Seq<ActionView>,
) -> bool {
    &&& states.len() == evs.len() + 1
    &&& acts.len() == evs.len()
    &&& forall|k: int| 0 <= k < evs.len() ==> #[trigger] run_step_ok(states, evs, acts, k)
}

/// The branches that a run's answers asked to force-delete, in order.
pub open spec fn deletions_of(acts: Seq<ActionView>) -> Seq<Seq<char>>
    decreases acts.len(),
{
    if acts.len() == 0 {
        Seq::empty()
    } else {
        let head = match acts[0] {
            ActionView::RunCapture { args } => if args.len() == 3 && args[0] == "branch"@
                && args[1] == "-D"@ {
                seq![args[2]]
            } else {
                Seq::empty()
            },
            _ => Seq::empty(),
        };
        head + deletions_of(acts.drop_first())
    }
}

/// Over a whole auto-confirmed run — started choosing, ended with every
/// candidate processed, no command having failed — the force-delete answers
/// name exactly the non-base, non-current members of the deletable list, in
/// list order, each once: every such member is deleted, and nothing else is.
pub proof fn lemma_auto_run_deletes_exactly(
    states: Seq<WorkflowView>,
    evs: Seq<EventView>,
    acts: Seq<ActionView>,
)
    requires
        is_run(states, evs, acts),
        states.len() >= 1,
        wf(states[0]),
        states[0].auto_confirm,
        states[0].phase is Choosing,
        forall|k: int| 0 <= k < evs.len() ==> !((#[trigger] evs[k]) is Failure),
        states.last().phase == (PhaseView::Finished { end: RunEnd::Completed }),
    ensures
        deletions_of(acts) == auto_deletions(
            states[0].branches,
            states[0].base,
            states[0].current,
            states[0].index,
        ),
    decreases evs.len(),
{
    let w = states[0];
    assert(evs.len() >= 1) by {
        if evs.len() == 0 {
            assert(states.last() == w);
        }
    }
    assert(run_step_ok(states, evs, acts, 0));
    assert(evs[0] is Proceed);
    let j = next_candidate(w.branches, w.base, w.index);
    lemma_next_candidate(w.branches, w.base, w.index);
    lemma_auto_deletions_skip_base(w.branches, w.base, w.current, w.index);
    lemma_step_preserves_wf(w, evs[0]);
    if j >= w.branches.len() {
        // The run stops at once and deletes nothing.
        assert(states[1].phase == (PhaseView::Finished { end: RunEnd::Completed }));
        assert(evs.len() == 1) by {
            if evs.len() > 1 {
                assert(run_step_ok(states, evs, acts, 1));
            }
        }
        assert(acts[0] == (ActionView::Stop { end: RunEnd::Completed }));
        assert(acts.drop_first().len() == 0);
        assert(deletions_of(acts.drop_first()) =~= Seq::<Seq<char>>::empty());
        assert(deletions_of(acts) =~= Seq::<Seq<char>>::empty());
        assert(auto_deletions(w.branches, w.base, w.current, j) =~= Seq::<Seq<char>>::empty());
    } else if w.branches[j] == w.current {
        // The checked-out branch is reported and skipped: one step, no
        // deletion, and the rest of the run starts choosing at `j + 1`.
        assert(acts[0] == (ActionView::Report {
            notice: (NoticeView::SkippedCurrent { branch: w.branches[j] }),
        }));
        let sub_states = states.drop_first();
        let sub_evs = evs.drop_first();
        let sub_acts = acts.drop_first();
        assert forall|k: int| 0 <= k < sub_evs.len() implies #[trigger] run_step_ok(
            sub_states,
            sub_evs,
            sub_acts,
            k,
        ) by {
            assert(run_step_ok(states, evs, acts, k + 1));
            assert(sub_states[k] == states[k + 1]);
            assert(sub_states[k + 1] == states[k + 2]);
        }
        assert(sub_states.last() == states.last());
        assert forall|k: int| 0 <= k < sub_evs.len() implies !((#[trigger] sub_evs[k])
            is Failure) by {
            assert(!(evs[k + 1] is Failure));
        }
        lemma_auto_run_deletes_exactly(sub_states, sub_evs, sub_acts);
        assert(states[1].branches == w.branches && states[1].base == w.base && states[1].current
            == w.current && states[1].index == j + 1);
        assert(deletions_of(acts) == deletions_of(sub_acts));
        assert(auto_deletions(w.branches, w.base, w.current, j) == auto_deletions(
            w.branches,
            w.base,
            w.current,
            j + 1,
        ));
    } else {
        // An ordinary candidate: hash query, forced deletion, report — one
        // deletion of exactly this branch — then the run goes on at `j + 1`.
        assert(states[1].phase is FetchingHash && states[1].index == j);
        assert(acts[0] == (ActionView::RunCapture { args: rev_parse_args_spec(w.branches[j]) }));
        assert(evs.len() >= 2) by {
            if evs.len() == 1 {
                assert(states.last() == states[1]);
            }
        }
        assert(run_step_ok(states, evs, acts, 1));
        assert(evs[1] is Output);
        assert(states[2].phase is Deleting && states[2].index == j);
        assert(acts[1] == (ActionView::RunCapture { args: delete_args_spec(w.branches[j]) }));
        lemma_step_preserves_wf(states[1], evs[1]);
        assert(evs.len() >= 3) by {
            if evs.len() == 2 {
                assert(states.last() == states[2]);
            }
        }
        assert(run_step_ok(states, evs, acts, 2));
        assert(evs[2] is Output);
        assert(states[3].phase is Choosing && states[3].index == j + 1);
        assert(states[3].branches == w.branches && states[3].base == w.base && states[3].current
            == w.current && states[3].auto_confirm);
        lemma_step_preserves_wf(states[2], evs[2]);
        let sub_states = states.skip(3);
        let sub_evs = evs.skip(3);
        let sub_acts = acts.skip(3);
        assert(sub_states.len() == sub_evs.len() + 1 && sub_acts.len() == sub_evs.len());
        assert forall|k: int| 0 <= k < sub_evs.len() implies #[trigger] run_step_ok(
            sub_states,
            sub_evs,
            sub_acts,
            k,
        ) by {
            assert(run_step_ok(states, evs, acts, k + 3));
            assert(sub_states[k] == states[k + 3]);
            assert(sub_states[k + 1] == states[k + 4]);
        }
        assert(sub_states[0] == states[3]);
        assert(sub_states.last() == states.last());
        assert forall|k: int| 0 <= k < sub_evs.len() implies !((#[trigger] sub_evs[k])
            is Failure) by {
            assert(!(evs[k + 3] is Failure));
        }
        lemma_auto_run_deletes_exactly(sub_states, sub_evs, sub_acts);
        // Only the middle answer has the force-delete shape.
        assert(rev_parse_args_spec(w.branches[j]).len() == 2);
        assert(delete_args_spec(w.branches[j])[2] == w.branches[j]);
        let d1 = acts.drop_first();
        let d2 = d1.drop_first();
        let d3 = d2.drop_first();
        assert(d1[0] == acts[1]);
        assert(d2[0] == acts[2]);
        assert(d3 =~= sub_acts);
        assert(deletions_of(d2) =~~= deletions_of(sub_acts));
        assert(deletions_of(d1) =~~= seq![w.branches[j]] + deletions_of(sub_acts));
        assert(deletions_of(acts) =~~= seq![w.branches[j]] + deletions_of(sub_acts));
        assert(auto_deletions(w.branches, w.base, w.current, j) == seq![w.branches[j]]
            + auto_deletions(w.branches, w.base, w.current, j + 1));
        assert(deletions_of(acts) =~= auto_deletions(w.branches, w.base, w.current, w.index));
    }
}

/// The deletion workflow over one deletable-branch list.
///
/// The surrounding program calls [`Workflow::step`] with [`Event::Proceed`]
/// first, then performs each returned [`Action`] and feeds back the event it
/// asked for, until an [`Action::Stop`] arrives.
pub struct Workflow {
    base: String,
    current: String,
    auto_confirm: bool,
    branches: Vec<String>,
    index: usize,
    phase: Phase,
}

impl View for Workflow {
    type V = WorkflowView;

    closed spec fn view(&self) -> WorkflowView {
        WorkflowView {
            base: self.base@,
            current: self.current@,
            auto_confirm: self.auto_confirm,
            branches: views(self.branches@),
            index: self.index as int,
            phase: self.phase@,
        }
    }
}

impl Workflow {
    /// Starts a run over `deletable_branch_names` against the given base and
    /// currently checked-out branch. With `auto_confirm`, every candidate is
    /// treated as confirmed and no prompt is ever put out.
    pub fn new(
        base_branch_name: &str,
        current_branch_name: &str,
        auto_confirm: bool,
        deletable_branch_names: Vec<String>,
    ) -> (w: Workflow)
        ensures
            w@ == (WorkflowView {
                base: base_branch_name@,
                current: current_branch_name@,
                auto_confirm,
                branches: views(deletable_branch_names@),
                index: 0,
                phase: PhaseView::Choosing,
            }),
            wf(w@),
    {
        Workflow {
            base: String::from_str(base_branch_name),
            current: String::from_str(current_branch_name),
            auto_confirm,
            branches: deletable_branch_names,
            index: 0,
            phase: Phase::Choosing,
        }
    }

    /// Whether the run is over, and how it ended.
    pub fn run_end(&self) -> (r: Option<RunEnd>)
        ensures
            match r {
                Some(end) => self@.phase == (PhaseView::Finished { end }),
                None => !(self@.phase is Finished),
            },
    {
        match &self.phase {
            Phase::Finished { end } => Some(*end),
            _ => None,
        }
    }

    /// Feeds the event the pending action asked for; answers the next action.
    /// The behaviour is exactly [`spec_step`].
    pub fn step(&mut self, event: Event) -> (action: Action)
        requires
            wf(old(self)@),
            expects(old(self)@.phase, event@),
        ensures
            wf(final(self)@),
            final(self)@ == spec_step(old(self)@, event@).0,
            action@ == spec_step(old(self)@, event@).1,
    {
        let ghost w0 = self@;
        match (&self.phase, event) {
            (Phase::Choosing, Event::Proceed) => {
                let n = self.branches.len();
                loop
                    invariant
                        wf(w0),
                        self.base@ == w0.base,
                        self.current@ == w0.current,
                        self.auto_confirm == w0.auto_confirm,
                        views(self.branches@) == w0.branches,
                        self.phase@ == w0.phase,
                        n == w0.branches.len(),
                        w0.index <= self.index as int <= n as int,
                        next_candidate(w0.branches, w0.base, w0.index) == next_candidate(
                            w0.branches,
                            w0.base,
                            self.index as int,
                        ),
                    ensures
                        self.base@ == w0.base,
                        self.current@ == w0.current,
                        self.auto_confirm == w0.auto_confirm,
                        views(self.branches@) == w0.branches,
                        self.phase@ == w0.phase,
                        self.index as int == next_candidate(w0.branches, w0.base, w0.index),
                        self.index as int <= n as int,
                        self.index as int == n as int || w0.branches[self.index as int]
                            != w0.base,
                    decreases n - self.index,
                {
                    if self.index == n {
                        break;
                    }
                    proof {
                        assert(views(self.branches@)[self.index as int]
                            == self.branches@[self.index as int]@);
                    }
                    let is_base = str_eq(
                        self.branches[self.index].as_str(),
                        self.base.as_str(),
                    );
                    if !is_base {
                        break;
                    }
                    self.index = self.index + 1;
                }
                let ghost j = next_candidate(w0.branches, w0.base, w0.index);
                if self.index == n {
                    self.phase = Phase::Finished { end: RunEnd::Completed };
                    Action::Stop { end: RunEnd::Completed }
                } else {
                    proof {
                        assert(views(self.branches@)[self.index as int]
                            == self.branches@[self.index as int]@);
                    }
                    let is_current = str_eq(
                        self.branches[self.index].as_str(),
                        self.current.as_str(),
                    );
                    if is_current {
                        let branch = self.branches[self.index].clone();
                        self.index = self.index + 1;
                        Action::Report { notice: Notice::SkippedCurrent { branch } }
                    } else if self.auto_confirm {
                        let args = rev_parse_args(self.branches[self.index].as_str());
                        self.phase = Phase::FetchingHash;
                        Action::RunCapture { args }
                    } else {
                        let branch = self.branches[self.index].clone();
                        self.phase = Phase::Confirming;
                        Action::Prompt { branch }
                    }
                }
            },
            (Phase::Confirming, Event::Line { input }) => {
                proof {
                    assert(w0.phase is Confirming);
                    assert(busy(w0.phase));
                    assert(self.index < self.branches@.len());
                    assert(views(self.branches@)[self.index as int]
                        == self.branches@[self.index as int]@);
                }
                let cmd = classify_input(input.as_str());
                match cmd {
                    ConfirmInput::Yes => {
                        let args = rev_parse_args(self.branches[self.index].as_str());
                        self.phase = Phase::FetchingHash;
                        Action::RunCapture { args }
                    },
                    ConfirmInput::No => {
                        let nlen = self.branches.len();
                        proof {
                            assert(self.index < nlen);
                        }
                        self.index = self.index + 1;
                        self.phase = Phase::Choosing;
                        Action::Report { notice: Notice::SkippedByUser }
                    },
                    ConfirmInput::Log => {
                        let args = log_args(self.branches[self.index].as_str());
                        self.phase = Phase::Displaying;
                        Action::RunInteractive { args }
                    },
                    ConfirmInput::Diff => {
                        let args = show_args(self.branches[self.index].as_str());
                        self.phase = Phase::Displaying;
                        Action::RunInteractive { args }
                    },
                    ConfirmInput::Quit => {
                        self.phase = Phase::Finished { end: RunEnd::UserQuit };
                        Action::Stop { end: RunEnd::UserQuit }
                    },
                    ConfirmInput::Help => {
                        self.phase = Phase::Choosing;
                        Action::Report { notice: Notice::Help }
                    },
                    ConfirmInput::Other => {
                        let branch = self.branches[self.index].clone();
                        Action::Prompt { branch }
                    },
                }
            },
            (Phase::FetchingHash, Event::Output { text }) => {
                proof {
                    assert(w0.phase is FetchingHash);
                    assert(self.index < self.branches@.len());
                    assert(views(self.branches@)[self.index as int]
                        == self.branches@[self.index as int]@);
                }
                let args = delete_args(self.branches[self.index].as_str());
                self.phase = Phase::Deleting { hash: text };
                Action::RunCapture { args }
            },
            (Phase::FetchingHash, Event::Failure) => {
                self.phase = Phase::Finished { end: RunEnd::Failed };
                Action::Stop { end: RunEnd::Failed }
            },
            (Phase::Deleting { hash }, Event::Output { .. }) => {
                proof {
                    assert(w0.phase is Deleting);
                    assert(self.index < self.branches@.len());
                    assert(views(self.branches@)[self.index as int]
                        == self.branches@[self.index as int]@);
                }
                let h = hash.clone();
                let branch = self.branches[self.index].clone();
                let nlen = self.branches.len();
                proof {
                    assert(self.index < nlen);
                }
                self.index = self.index + 1;
                self.phase = Phase::Choosing;
                Action::Report { notice: Notice::Deleted { branch, hash: h } }
            },
            (Phase::Deleting { .. }, Event::Failure) => {
                self.phase = Phase::Finished { end: RunEnd::Failed };
                Action::Stop { end: RunEnd::Failed }
            },
            (Phase::Displaying, Event::DisplayDone) => {
                proof {
                    assert(w0.phase is Displaying);
                    assert(self.index < self.branches@.len());
                    assert(views(self.branches@)[self.index as int]
                        == self.branches@[self.index as int]@);
                }
                let branch = self.branches[self.index].clone();
                self.phase = Phase::Confirming;
                Action::Prompt { branch }
            },
            (Phase::Displaying, Event::Failure) => {
                self.phase = Phase::Finished { end: RunEnd::Failed };
                Action::Stop { end: RunEnd::Failed }
            },
            _ => {
                proof {
                    assert(false);
                }
                Action::Stop { end: RunEnd::Failed }
            },
        }
    }
}

} // verus!
