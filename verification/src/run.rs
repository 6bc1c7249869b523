//! A run, step by step: what is asked of the driver next, given what the
//! driver handed back. The driver starts the external tools and writes the
//! tag file; every decision is made here.

use crate::bin::{
    find_undecodable, git_files, write_tags, written, Error, ErrorView, Opt, OptView,
};
use crate::cmd_ctags::{
    call_outcome, first_failure, header_of, lemma_judge_first_failure, names_command, verdict,
    worker_args, CmdCtags, CtagsError, CtagsErrorView, WorkerResult, WorkerResultView,
};
use crate::command::command_line;
use crate::cmd_git::{
    cdup_args, checked, files_kept, git_command, lfs_args, lfs_outcome, ls_files_args,
    ls_files_outcome, prefix_args, ran_view, way_outcome, CmdGit,
};
use crate::decode::same_text;
use crate::output::{Output, OutputView};
use crate::shard::shard_texts;
use vstd::prelude::*;

verus! {

/// A shell that a completion file can be generated for.
#[derive(Debug, Clone, Copy, PartialEq, Eq, Structural)]
pub enum Shell {
    Bash,
    Fish,
    Zsh,
    PowerShell,
}

/// The shell that goes by `name`; any other name stands for bash.
pub open spec fn shell_named(name: Seq<char>) -> Shell {
    if name == "fish"@ {
        Shell::Fish
    } else if name == "zsh"@ {
        Shell::Zsh
    } else if name == "powershell"@ {
        Shell::PowerShell
    } else {
        Shell::Bash
    }
}

/// Picks the shell that goes by `name`.
pub fn shell_of(name: &str) -> (shell: Shell)
    ensures
        shell == shell_named(name@),
{
    if same_text(name, "fish") {
        Shell::Fish
    } else if same_text(name, "zsh") {
        Shell::Zsh
    } else if same_text(name, "powershell") {
        Shell::PowerShell
    } else {
        Shell::Bash
    }
}

/// Where the tag file goes.
#[derive(Debug, Clone, PartialEq, Eq)]
pub enum Sink {
    /// To the standard output.
    Stdout,
    /// To the file at `path`.
    File { path: String },
}

/// The mathematical content of a [`Sink`].
pub enum SinkView {
    Stdout,
    File { path: Seq<char> },
}

impl View for Sink {
    type V = SinkView;

    open spec fn view(&self) -> SinkView {
        match self {
            Sink::Stdout => SinkView::Stdout,
            Sink::File { path } => SinkView::File { path: path@ },
        }
    }
}

/// The sink that an output name stands for: `-` is the standard output, any
/// other name a file.
pub open spec fn sink_named(output: Seq<char>) -> SinkView {
    if output == "-"@ {
        SinkView::Stdout
    } else {
        SinkView::File { path: output }
    }
}

/// Picks the sink of a run.
pub fn sink_of(opt: &Opt) -> (sink: Sink)
    ensures
        sink@ == sink_named(opt@.output),
{
    if same_text(opt.output.as_str(), "-") {
        Sink::Stdout
    } else {
        Sink::File { path: opt.output.clone() }
    }
}

/// How far a run has come.
#[derive(Debug, PartialEq, Eq)]
pub enum State {
    /// Nothing has been asked for yet.
    Start,
    /// The file list is awaited.
    Listing,
    /// The files tracked by git-lfs are awaited; `list` is the file list.
    LfsListing { list: Vec<String> },
    /// The way up to the top of the working tree is awaited.
    AskingCdup { list: Vec<String>, lfs: Output },
    /// The way down from the top of the working tree is awaited.
    AskingPrefix { list: Vec<String>, lfs: Output, cdup: String },
    /// The workers are awaited.
    Tagging,
    /// The header is awaited; `outputs` are the outputs of the workers.
    Heading { outputs: Vec<Output> },
    /// The run is over.
    Done,
}

/// The mathematical content of a [`State`].
pub enum StateView {
    Start,
    Listing,
    LfsListing { list: Seq<Seq<char>> },
    AskingCdup { list: Seq<Seq<char>>, lfs: OutputView },
    AskingPrefix { list: Seq<Seq<char>>, lfs: OutputView, cdup: Seq<char> },
    Tagging,
    Heading { outputs: Seq<OutputView> },
    Done,
}

impl View for State {
    type V = StateView;

    open spec fn view(&self) -> StateView {
        match self {
            State::Start => StateView::Start,
            State::Listing => StateView::Listing,
            State::LfsListing { list } => StateView::LfsListing { list: list.deep_view() },
            State::AskingCdup { list, lfs } => StateView::AskingCdup {
                list: list.deep_view(),
                lfs: lfs@,
            },
            State::AskingPrefix { list, lfs, cdup } => StateView::AskingPrefix {
                list: list.deep_view(),
                lfs: lfs@,
                cdup: cdup@,
            },
            State::Tagging => StateView::Tagging,
            State::Heading { outputs } => StateView::Heading { outputs: outputs.deep_view() },
            State::Done => StateView::Done,
        }
    }
}

/// What the driver hands back.
#[derive(Debug, PartialEq, Eq)]
pub enum Event {
    /// The run begins.
    Begin,
    /// The file lister was run: its output, or the reason why it could not
    /// be started.
    Git(Result<Output, String>),
    /// The workers have ended; their results are in shard order.
    Workers(Vec<WorkerResult>),
    /// The probe for the header has ended, however it exited; these are the
    /// bytes that it wrote.
    Header(Vec<u8>),
    /// What the probe for the header wrote could not be read.
    HeaderUnread { msg: String },
}

/// The mathematical content of an [`Event`].
pub enum EventView {
    Begin,
    Git(Result<OutputView, Seq<char>>),
    Workers(Seq<WorkerResultView>),
    Header(Seq<u8>),
    HeaderUnread { msg: Seq<char> },
}

impl View for Event {
    type V = EventView;

    open spec fn view(&self) -> EventView {
        match self {
            Event::Begin => EventView::Begin,
            Event::Git(ran) => EventView::Git(ran_view(*ran)),
            Event::Workers(results) => EventView::Workers(results.deep_view()),
            Event::Header(written) => EventView::Header(written@),
            Event::HeaderUnread { msg } => EventView::HeaderUnread { msg: msg@ },
        }
    }
}

/// What is asked of the driver.
#[derive(Debug, PartialEq, Eq)]
pub enum Action {
    /// Print a sample configuration; the run is over.
    PrintConfig,
    /// Generate the completion file for a shell; the run is over.
    Complete(Shell),
    /// Run the file lister with `args` and hand back [`Event::Git`].
    RunGit { args: Vec<String> },
    /// Start one worker per entry of `files`, all with `args`, feed each its
    /// entry and hand back [`Event::Workers`].
    RunCtags { args: Vec<String>, files: Vec<String> },
    /// Probe the tag tool for its header and hand back [`Event::Header`].
    ProbeHeader,
    /// Write `bytes` to `sink`; the run is over.
    Write { sink: Sink, bytes: Vec<u8> },
    /// Report the error; the run is over and no sink is touched.
    Fail(Error),
}

/// The mathematical content of an [`Action`].
pub enum ActionView {
    PrintConfig,
    Complete(Shell),
    RunGit { args: Seq<Seq<char>> },
    RunCtags { args: Seq<Seq<char>>, files: Seq<Seq<char>> },
    ProbeHeader,
    Write { sink: SinkView, bytes: Seq<u8> },
    Fail(ErrorView),
}

impl View for Action {
    type V = ActionView;

    open spec fn view(&self) -> ActionView {
        match self {
            Action::PrintConfig => ActionView::PrintConfig,
            Action::Complete(shell) => ActionView::Complete(*shell),
            Action::RunGit { args } => ActionView::RunGit { args: args.deep_view() },
            Action::RunCtags { args, files } => ActionView::RunCtags {
                args: args.deep_view(),
                files: files.deep_view(),
            },
            Action::ProbeHeader => ActionView::ProbeHeader,
            Action::Write { sink, bytes } => ActionView::Write { sink: sink@, bytes: bytes@ },
            Action::Fail(e) => ActionView::Fail(e@),
        }
    }
}

/// The run is over with the error `e`.
pub open spec fn failed(e: ErrorView) -> (StateView, ActionView) {
    (StateView::Done, ActionView::Fail(e))
}

/// The file list is settled: the workers are started on its shards.
pub open spec fn tagging(opt: OptView, list: Seq<Seq<char>>) -> (StateView, ActionView) {
    (
        StateView::Tagging,
        ActionView::RunCtags { args: worker_args(opt), files: shard_texts(list, opt.thread as int) },
    )
}

/// The step of a run with the options `opt`: the state that follows `state`
/// on `event`, and what is asked of the driver then.
pub open spec fn next(opt: OptView, state: StateView, event: EventView) -> (StateView, ActionView) {
    match (state, event) {
        (StateView::Start, EventView::Begin) => if opt.config {
            (StateView::Done, ActionView::PrintConfig)
        } else if opt.completion is Some {
            (StateView::Done, ActionView::Complete(shell_named(opt.completion->0)))
        } else {
            (StateView::Listing, ActionView::RunGit { args: ls_files_args(opt) })
        },
        (StateView::Listing, EventView::Git(ran)) => match ls_files_outcome(opt, ran) {
            Err(e) => failed(ErrorView::Files(e)),
            Ok(list) => if opt.exclude_lfs {
                (StateView::LfsListing { list }, ActionView::RunGit { args: lfs_args(opt) })
            } else {
                tagging(opt, list)
            },
        },
        (StateView::LfsListing { list }, EventView::Git(ran)) => match checked(
            git_command(opt, lfs_args(opt)),
            ran,
        ) {
            Err(e) => failed(ErrorView::Files(e)),
            Ok(lfs) => (
                StateView::AskingCdup { list, lfs },
                ActionView::RunGit { args: cdup_args() },
            ),
        },
        (StateView::AskingCdup { list, lfs }, EventView::Git(ran)) => match way_outcome(
            git_command(opt, cdup_args()),
            ran,
        ) {
            Err(e) => failed(ErrorView::Files(e)),
            Ok(cdup) => (
                StateView::AskingPrefix { list, lfs, cdup },
                ActionView::RunGit { args: prefix_args() },
            ),
        },
        (StateView::AskingPrefix { list, lfs, cdup }, EventView::Git(ran)) => match way_outcome(
            git_command(opt, prefix_args()),
            ran,
        ) {
            Err(e) => failed(ErrorView::Files(e)),
            Ok(prefix) => match lfs_outcome(lfs, cdup, prefix) {
                Err(e) => failed(ErrorView::Files(e)),
                Ok(lfs_list) => tagging(opt, files_kept(true, list, lfs_list)),
            },
        },
        (StateView::Tagging, EventView::Workers(results)) => match call_outcome(opt, results) {
            Err(e) => failed(ErrorView::Tags(e)),
            Ok(outputs) => match written(opt, Seq::empty(), outputs) {
                Err(e) => failed(e),
                Ok(_) => (StateView::Heading { outputs }, ActionView::ProbeHeader),
            },
        },
        (StateView::Heading { outputs }, EventView::Header(bytes)) => match header_of(bytes) {
            Err(e) => failed(ErrorView::Tags(e)),
            Ok(header) => match written(opt, header, outputs) {
                Err(e) => failed(e),
                Ok(bytes) => (
                    StateView::Done,
                    ActionView::Write { sink: sink_named(opt.output), bytes },
                ),
            },
        },
        (StateView::Heading { outputs }, EventView::HeaderUnread { msg }) => failed(
            ErrorView::Tags(CtagsErrorView::Io { msg }),
        ),
        _ => failed(ErrorView::Unexpected),
    }
}

/// Starts the workers on the shards of the settled file list.
fn start_tagging(opt: &Opt, list: &[String]) -> (r: (State, Action))
    requires
        opt.thread >= 1,
    ensures
        (r.0@, r.1@) == tagging(opt@, list.deep_view()),
{
    let args = CmdCtags::get_args(opt);
    let files = git_files(opt, list);
    (State::Tagging, Action::RunCtags { args, files })
}

/// Takes one step of a run: from the state of the run and what the driver
/// handed back to the state that follows and what is asked of the driver
/// next. A run begins in [`State::Start`] with [`Event::Begin`] and is over
/// once the state is [`State::Done`].
pub fn step(opt: &Opt, state: State, event: Event) -> (r: (State, Action))
    requires
        opt.thread >= 1,
    ensures
        (r.0@, r.1@) == next(opt@, state@, event@),
{
    match (state, event) {
        (State::Start, Event::Begin) => {
            if opt.config {
                return (State::Done, Action::PrintConfig);
            }
            match &opt.completion {
                Some(name) => (State::Done, Action::Complete(shell_of(name.as_str()))),
                None => (State::Listing, Action::RunGit { args: CmdGit::get_ls_files_args(opt) }),
            }
        },
        (State::Listing, Event::Git(ran)) => {
            match CmdGit::ls_files(opt, ran) {
                Err(e) => (State::Done, Action::Fail(Error::Files(e))),
                Ok(list) => {
                    if opt.exclude_lfs {
                        (
                            State::LfsListing { list },
                            Action::RunGit { args: CmdGit::get_lfs_args(opt) },
                        )
                    } else {
                        start_tagging(opt, list.as_slice())
                    }
                },
            }
        },
        (State::LfsListing { list }, Event::Git(ran)) => {
            let args = CmdGit::get_lfs_args(opt);
            match CmdGit::call(opt, args.as_slice(), ran) {
                Err(e) => (State::Done, Action::Fail(Error::Files(e))),
                Ok(lfs) => (
                    State::AskingCdup { list, lfs },
                    Action::RunGit { args: CmdGit::get_cdup_args() },
                ),
            }
        },
        (State::AskingCdup { list, lfs }, Event::Git(ran)) => {
            match CmdGit::show_cdup(opt, ran) {
                Err(e) => (State::Done, Action::Fail(Error::Files(e))),
                Ok(cdup) => (
                    State::AskingPrefix { list, lfs, cdup },
                    Action::RunGit { args: CmdGit::get_prefix_args() },
                ),
            }
        },
        (State::AskingPrefix { list, lfs, cdup }, Event::Git(ran)) => {
            match CmdGit::show_prefix(opt, ran) {
                Err(e) => (State::Done, Action::Fail(Error::Files(e))),
                Ok(prefix) => match CmdGit::lfs_ls_files(&lfs, cdup.as_str(), prefix.as_str()) {
                    Err(e) => (State::Done, Action::Fail(Error::Files(e))),
                    Ok(lfs_list) => {
                        let files = CmdGit::keep(list, lfs_list.as_slice());
                        start_tagging(opt, files.as_slice())
                    },
                },
            }
        },
        (State::Tagging, Event::Workers(results)) => {
            match CmdCtags::call(opt, results) {
                Err(e) => (State::Done, Action::Fail(Error::Tags(e))),
                Ok(outputs) => {
                    if opt.validate_utf8 {
                        match find_undecodable(outputs.as_slice()) {
                            Some(worker) => {
                                return (State::Done, Action::Fail(Error::Decoding { worker }));
                            },
                            None => {},
                        }
                    }
                    (State::Heading { outputs }, Action::ProbeHeader)
                },
            }
        },
        (State::Heading { outputs }, Event::Header(bytes)) => {
            match CmdCtags::get_tags_header(bytes.as_slice()) {
                Err(e) => (State::Done, Action::Fail(Error::Tags(e))),
                Ok(header) => match write_tags(opt, header.as_str(), outputs.as_slice()) {
                    Err(e) => (State::Done, Action::Fail(e)),
                    Ok(bytes) => (State::Done, Action::Write { sink: sink_of(opt), bytes }),
                },
            }
        },
        (State::Heading { outputs }, Event::HeaderUnread { msg }) => (
            State::Done,
            Action::Fail(Error::Tags(CtagsError::Io { msg })),
        ),
        _ => (State::Done, Action::Fail(Error::Unexpected)),
    }
}

/// A run in which a worker failed ends when the workers are judged: the
/// driver is asked to report the error of the first worker that failed, so
/// no header is probed and no sink is written. Where that worker could not
/// be started, or exited with a failure status and an error output that is
/// text, the error names the command line of the workers.
pub proof fn lemma_failed_worker_ends_run(
    opt: OptView,
    results: Seq<WorkerResultView>,
    k: int,
)
    requires
        0 <= k < results.len(),
        verdict(command_line(opt.dir, opt.bin_ctags, worker_args(opt)), results[k]) is Err,
    ensures
        ({
            let cmd = command_line(opt.dir, opt.bin_ctags, worker_args(opt));
            let first = first_failure(cmd, results);
            let error = verdict(cmd, results[first])->Err_0;
            &&& 0 <= first <= k
            &&& next(opt, StateView::Tagging, EventView::Workers(results)) == failed(
                ErrorView::Tags(error),
            )
            &&& !(results[first] is Lost) && !(error is ConvFailed) ==> names_command(error, cmd)
        }),
{
    let cmd = command_line(opt.dir, opt.bin_ctags, worker_args(opt));
    lemma_judge_first_failure(cmd, results);
    crate::cmd_ctags::lemma_first_failure_is_first(cmd, results, k);
}

} // verus!
