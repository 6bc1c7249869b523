//! The tag tool: its arguments, its command line and the judging of its workers.

use crate::bin::Opt;
use crate::bin::OptView;
use crate::command::command_line;
use crate::command::show_command;
use crate::decode::decode;
use crate::lfs::starts_with;
use crate::output::Output;
use crate::show::{push_shown, shown};
use crate::output::OutputView;
use vstd::prelude::*;
use vstd::string::StringExecFns;
use vstd::utf8::{decode_utf8, encode_utf8, valid_utf8};

verus! {

/// Why the tag tool gave no usable result.
#[derive(Debug, Clone, PartialEq, Eq)]
pub enum CtagsError {
    /// The tool ran and exited with a failure status; `err` is what it wrote
    /// to its standard error.
    ExecFailed { cmd: String, err: String },
    /// The tool could not be started.
    CallFailed { cmd: String },
    /// Bytes that had to be text were not well-formed UTF-8.
    ConvFailed { s: Vec<u8> },
    /// Feeding a started tool, or waiting for it, failed.
    Io { msg: String },
}

/// The mathematical content of a [`CtagsError`].
pub enum CtagsErrorView {
    ExecFailed { cmd: Seq<char>, err: Seq<char> },
    CallFailed { cmd: Seq<char> },
    ConvFailed { s: Seq<u8> },
    Io { msg: Seq<char> },
}

impl View for CtagsError {
    type V = CtagsErrorView;

    open spec fn view(&self) -> CtagsErrorView {
        match self {
            CtagsError::ExecFailed { cmd, err } => CtagsErrorView::ExecFailed {
                cmd: cmd@,
                err: err@,
            },
            CtagsError::CallFailed { cmd } => CtagsErrorView::CallFailed { cmd: cmd@ },
            CtagsError::ConvFailed { s } => CtagsErrorView::ConvFailed { s: s@ },
            CtagsError::Io { msg } => CtagsErrorView::Io { msg: msg@ },
        }
    }
}

/// What a reader is told of an error of the tag tool.
pub open spec fn ctags_message(e: CtagsErrorView) -> Seq<char> {
    match e {
        CtagsErrorView::ExecFailed { cmd, err } => "failed to execute ctags command ("@ + cmd
            + ")\n"@ + err,
        CtagsErrorView::CallFailed { cmd } => "failed to call ctags command ("@ + cmd + ")"@,
        CtagsErrorView::ConvFailed { s } => "failed to convert to UTF-8 ("@ + shown(s) + ")"@,
        CtagsErrorView::Io { msg } => msg,
    }
}

impl CtagsError {
    /// Writes out what a reader is told of the error.
    pub fn message(&self) -> (text: String)
        ensures
            text@ == ctags_message(self@),
    {
        match self {
            CtagsError::ExecFailed { cmd, err } => {
                let mut text = "failed to execute ctags command (".to_owned();
                text.append(cmd.as_str());
                text.append(")\n");
                text.append(err.as_str());
                text
            },
            CtagsError::CallFailed { cmd } => {
                let mut text = "failed to call ctags command (".to_owned();
                text.append(cmd.as_str());
                text.append(")");
                text
            },
            CtagsError::ConvFailed { s } => {
                let mut text = "failed to convert to UTF-8 (".to_owned();
                push_shown(&mut text, s.as_slice());
                text.append(")");
                text
            },
            CtagsError::Io { msg } => msg.clone(),
        }
    }
}

/// How one worker ended.
#[derive(Debug, Clone, PartialEq, Eq)]
pub enum WorkerResult {
    /// The tool could not be started.
    NotStarted,
    /// The tool was started, but feeding it or waiting for it failed.
    Lost { msg: String },
    /// The tool ran to its end.
    Exited(Output),
}

/// The mathematical content of a [`WorkerResult`].
pub enum WorkerResultView {
    NotStarted,
    Lost { msg: Seq<char> },
    Exited(OutputView),
}

impl View for WorkerResult {
    type V = WorkerResultView;

    open spec fn view(&self) -> WorkerResultView {
        match self {
            WorkerResult::NotStarted => WorkerResultView::NotStarted,
            WorkerResult::Lost { msg } => WorkerResultView::Lost { msg: msg@ },
            WorkerResult::Exited(o) => WorkerResultView::Exited(o@),
        }
    }
}

impl DeepView for WorkerResult {
    type V = WorkerResultView;

    open spec fn deep_view(&self) -> WorkerResultView {
        self@
    }
}

/// The arguments of every worker: the file list comes on the standard input,
/// the tags go to the standard output, then the sorting switch, one exclusion
/// per pattern and the user's own options.
pub open spec fn worker_args(opt: OptView) -> Seq<Seq<char>> {
    seq!["-L -"@, "-f -"@] + (if opt.unsorted {
        seq!["--sort=no"@]
    } else {
        Seq::empty()
    }) + opt.exclude.map_values(|e: Seq<char>| "--exclude="@ + e) + opt.opt_ctags
}

/// The outcome of one worker: its output, or the error that it stands for.
/// `cmd` is the command line that the worker ran.
pub open spec fn verdict(cmd: Seq<char>, w: WorkerResultView) -> Result<
    OutputView,
    CtagsErrorView,
> {
    match w {
        WorkerResultView::NotStarted => Err(CtagsErrorView::CallFailed { cmd }),
        WorkerResultView::Lost { msg } => Err(CtagsErrorView::Io { msg }),
        WorkerResultView::Exited(o) => if o.success {
            Ok(o)
        } else if valid_utf8(o.stderr) {
            Err(CtagsErrorView::ExecFailed { cmd, err: decode_utf8(o.stderr) })
        } else {
            Err(CtagsErrorView::ConvFailed { s: o.stderr })
        },
    }
}

/// The outcome of all workers, taken in shard order: every output if all of
/// them succeeded, else the error of the first one that did not.
pub open spec fn judge(cmd: Seq<char>, ws: Seq<WorkerResultView>) -> Result<
    Seq<OutputView>,
    CtagsErrorView,
>
    decreases ws.len(),
{
    if ws.len() == 0 {
        Ok(Seq::empty())
    } else {
        match judge(cmd, ws.drop_last()) {
            Err(e) => Err(e),
            Ok(outs) => match verdict(cmd, ws.last()) {
                Err(e) => Err(e),
                Ok(o) => Ok(outs.push(o)),
            },
        }
    }
}

/// The outcome of the workers of a run with the options `opt`.
pub open spec fn call_outcome(opt: OptView, ws: Seq<WorkerResultView>) -> Result<
    Seq<OutputView>,
    CtagsErrorView,
> {
    judge(command_line(opt.dir, opt.bin_ctags, worker_args(opt)), ws)
}

/// The mathematical content of what a call hands back.
pub open spec fn outcome_view(r: Result<Vec<Output>, CtagsError>) -> Result<
    Seq<OutputView>,
    CtagsErrorView,
> {
    match r {
        Ok(outs) => Ok(outs.deep_view()),
        Err(e) => Err(e@),
    }
}

/// The arguments of the run that probes the tool for its header: the file
/// list is read from the file at `list`, which is empty, the tags go to the
/// file at `tags`, then the user's own options.
pub open spec fn header_args(opt: OptView, list: Seq<char>, tags: Seq<char>) -> Seq<Seq<char>> {
    seq!["-L "@ + list, "-f "@ + tags] + opt.opt_ctags
}

/// The header that the probe left behind: what it wrote, as text.
pub open spec fn header_of(written: Seq<u8>) -> Result<Seq<char>, CtagsErrorView> {
    if valid_utf8(written) {
        Ok(decode_utf8(written))
    } else {
        Err(CtagsErrorView::ConvFailed { s: written })
    }
}

/// The pipe size asked for a payload of `len` bytes: the length as a 32-bit
/// integer, capped at one mebibyte.
pub open spec fn pipe_size_of(len: usize) -> i32 {
    let n = len as i32;
    if n < 1048576 {
        n
    } else {
        1048576
    }
}

/// The index of the first worker that gave an error; the number of workers
/// where none did.
pub open spec fn first_failure(cmd: Seq<char>, ws: Seq<WorkerResultView>) -> int
    decreases ws.len(),
{
    if ws.len() == 0 {
        0
    } else if first_failure(cmd, ws.drop_last()) < ws.len() - 1 {
        first_failure(cmd, ws.drop_last())
    } else if verdict(cmd, ws.last()) is Err {
        ws.len() - 1
    } else {
        ws.len() as int
    }
}

/// The error carries the command line `cmd`.
pub open spec fn names_command(e: CtagsErrorView, cmd: Seq<char>) -> bool {
    match e {
        CtagsErrorView::ExecFailed { cmd: c, err } => c == cmd,
        CtagsErrorView::CallFailed { cmd: c } => c == cmd,
        _ => false,
    }
}

/// No worker before the first failure gave an error.
pub proof fn lemma_first_failure_is_first(cmd: Seq<char>, ws: Seq<WorkerResultView>, k: int)
    requires
        0 <= k < ws.len(),
        verdict(cmd, ws[k]) is Err,
    ensures
        0 <= first_failure(cmd, ws) <= k,
        verdict(cmd, ws[first_failure(cmd, ws)]) is Err,
        forall|j: int| 0 <= j < first_failure(cmd, ws) ==> verdict(cmd, #[trigger] ws[j]) is Ok,
    decreases ws.len(),
{
    lemma_first_failure_bounds(cmd, ws);
    lemma_first_failure_bounds(cmd, ws.drop_last());
    if k < ws.len() - 1 {
        assert(ws.drop_last()[k] == ws[k]);
        lemma_first_failure_is_first(cmd, ws.drop_last(), k);
        let f = first_failure(cmd, ws.drop_last());
        assert(ws.drop_last()[f] == ws[f]);
        assert forall|j: int| 0 <= j < f implies verdict(cmd, #[trigger] ws[j]) is Ok by {
            assert(ws.drop_last()[j] == ws[j]);
        }
    } else {
        let f = first_failure(cmd, ws.drop_last());
        if f < ws.len() - 1 {
            assert(ws.drop_last()[f] == ws[f]);
        }
        assert forall|j: int| 0 <= j < first_failure(cmd, ws) implies verdict(
            cmd,
            #[trigger] ws[j],
        ) is Ok by {
            assert(ws.drop_last()[j] == ws[j]);
        }
    }
}

/// The first failure lies among the workers or right behind them, and is a
/// failure where it lies among them; before it there is none.
pub proof fn lemma_first_failure_bounds(cmd: Seq<char>, ws: Seq<WorkerResultView>)
    ensures
        0 <= first_failure(cmd, ws) <= ws.len(),
        first_failure(cmd, ws) < ws.len() ==> verdict(cmd, ws[first_failure(cmd, ws)]) is Err,
        forall|j: int| 0 <= j < first_failure(cmd, ws) ==> verdict(cmd, #[trigger] ws[j]) is Ok,
    decreases ws.len(),
{
    if ws.len() > 0 {
        let init = ws.drop_last();
        lemma_first_failure_bounds(cmd, init);
        let f = first_failure(cmd, init);
        if f < ws.len() - 1 {
            assert(init[f] == ws[f]);
        }
        assert forall|j: int| 0 <= j < first_failure(cmd, ws) implies verdict(
            cmd,
            #[trigger] ws[j],
        ) is Ok by {
            if j < ws.len() - 1 {
                assert(init[j] == ws[j]);
            }
        }
    }
}

/// The workers are judged by their first failure: where there is none, the
/// outcome holds the output of every worker in shard order; where there is
/// one, the outcome is its error.
pub proof fn lemma_judge_first_failure(cmd: Seq<char>, ws: Seq<WorkerResultView>)
    ensures
        first_failure(cmd, ws) == ws.len() ==> judge(cmd, ws) == Ok::<
            Seq<OutputView>,
            CtagsErrorView,
        >(ws.map_values(|w: WorkerResultView| verdict(cmd, w)->Ok_0)),
        first_failure(cmd, ws) < ws.len() ==> judge(cmd, ws) == Err::<
            Seq<OutputView>,
            CtagsErrorView,
        >(verdict(cmd, ws[first_failure(cmd, ws)])->Err_0),
    decreases ws.len(),
{
    lemma_first_failure_bounds(cmd, ws);
    if ws.len() > 0 {
        let init = ws.drop_last();
        lemma_judge_first_failure(cmd, init);
        lemma_first_failure_bounds(cmd, init);
        let f = first_failure(cmd, init);
        if f < init.len() {
            assert(init[f] == ws[f]);
        } else if verdict(cmd, ws.last()) is Ok {
            let out = |w: WorkerResultView| verdict(cmd, w)->Ok_0;
            assert(ws.map_values(out) =~= init.map_values(out).push(out(ws.last())));
        }
    } else {
        assert(ws.map_values(|w: WorkerResultView| verdict(cmd, w)->Ok_0) =~= Seq::empty());
    }
}

/// Once a prefix of the workers has given an error, that error is the outcome.
pub proof fn lemma_judge_stops(cmd: Seq<char>, ws: Seq<WorkerResultView>, k: int)
    requires
        0 <= k < ws.len(),
        judge(cmd, ws.take(k)) is Ok,
        verdict(cmd, ws[k]) is Err,
    ensures
        judge(cmd, ws) == Err::<Seq<OutputView>, CtagsErrorView>(verdict(cmd, ws[k])->Err_0),
    decreases ws.len(),
{
    if k == ws.len() - 1 {
        assert(ws.drop_last() =~= ws.take(k));
    } else {
        assert(ws.drop_last().take(k) =~= ws.take(k));
        lemma_judge_stops(cmd, ws.drop_last(), k);
    }
}

/// The tag tool.
pub struct CmdCtags;

impl CmdCtags {
    /// Builds the arguments that every worker is started with.
    pub fn get_args(opt: &Opt) -> (args: Vec<String>)
        ensures
            args.deep_view() == worker_args(opt@),
    {
        let mut args: Vec<String> = Vec::new();
        args.push("-L -".to_owned());
        args.push("-f -".to_owned());
        if opt.unsorted {
            args.push("--sort=no".to_owned());
        }
        let ghost head = args.deep_view();
        proof {
            assert(head =~= seq!["-L -"@, "-f -"@] + (if opt.unsorted {
                seq!["--sort=no"@]
            } else {
                Seq::empty()
            }));
        }
        let mut i: usize = 0;
        while i < opt.exclude.len()
            invariant
                i <= opt.exclude.len(),
                args.deep_view() == head + opt.exclude.deep_view().take(i as int).map_values(
                    |e: Seq<char>| "--exclude="@ + e,
                ),
            decreases opt.exclude.len() - i,
        {
            let mut arg = "--exclude=".to_owned();
            arg.append(opt.exclude[i].as_str());
            let ghost before = args.deep_view();
            args.push(arg);
            proof {
                let ex = opt.exclude.deep_view();
                assert(args.deep_view() =~= before.push(arg@));
                assert(ex[i as int] == opt.exclude[i as int]@);
                assert(args.deep_view() =~= head + ex.take(i + 1).map_values(
                    |e: Seq<char>| "--exclude="@ + e,
                ));
            }
            i += 1;
        }
        proof {
            assert(opt.exclude.deep_view().take(opt.exclude.len() as int)
                =~= opt.exclude.deep_view());
        }
        let ghost mid = args.deep_view();
        let mut j: usize = 0;
        while j < opt.opt_ctags.len()
            invariant
                j <= opt.opt_ctags.len(),
                args.deep_view() == mid + opt.opt_ctags.deep_view().take(j as int),
            decreases opt.opt_ctags.len() - j,
        {
            let ghost before = args.deep_view();
            args.push(opt.opt_ctags[j].clone());
            proof {
                assert(args.deep_view() =~= before.push(opt.opt_ctags[j as int]@));
                assert(opt.opt_ctags.deep_view().take(j + 1) =~= opt.opt_ctags.deep_view().take(
                    j as int,
                ).push(opt.opt_ctags[j as int]@));
            }
            j += 1;
        }
        proof {
            assert(opt.opt_ctags.deep_view().take(opt.opt_ctags.len() as int)
                =~= opt.opt_ctags.deep_view());
        }
        args
    }

    /// Judges the workers of a run, given in shard order: hands back every
    /// output if all of them succeeded, else the error of the first one that
    /// did not.
    pub fn call(opt: &Opt, results: Vec<WorkerResult>) -> (r: Result<Vec<Output>, CtagsError>)
        ensures
            outcome_view(r) == call_outcome(opt@, results.deep_view()),
    {
        let args = Self::get_args(opt);
        let cmd = Self::get_cmd(opt, args.as_slice());
        let ghost all = results.deep_view();
        let ghost mut done: Seq<WorkerResultView> = Seq::empty();
        let mut rest = results;
        let mut outputs: Vec<Output> = Vec::new();
        proof {
            assert(outputs.deep_view() =~= Seq::empty());
            assert(done + rest.deep_view() =~= all);
        }
        while rest.len() > 0
            invariant
                all == results.deep_view(),
                done + rest.deep_view() == all,
                judge(cmd@, done) == Ok::<Seq<OutputView>, CtagsErrorView>(outputs.deep_view()),
                cmd@ == command_line(opt@.dir, opt@.bin_ctags, worker_args(opt@)),
            decreases rest.len(),
        {
            let ghost before = rest.deep_view();
            let ghost outs_before = outputs.deep_view();
            let w = rest.remove(0);
            proof {
                assert(before[0] == w@);
                assert(rest.deep_view() =~= before.drop_first());
                assert(done.push(w@) + rest.deep_view() =~= done + before);
                assert(done.push(w@).drop_last() =~= done);
                assert(all.take(done.len() as int + 1) =~= done.push(w@));
                assert(all.take(done.len() as int) =~= done);
                assert(all[done.len() as int] == w@);
            }
            match w {
                WorkerResult::NotStarted => {
                    proof {
                        lemma_judge_stops(cmd@, all, done.len() as int);
                    }
                    return Err(CtagsError::CallFailed { cmd });
                },
                WorkerResult::Lost { msg } => {
                    proof {
                        lemma_judge_stops(cmd@, all, done.len() as int);
                    }
                    return Err(CtagsError::Io { msg });
                },
                WorkerResult::Exited(o) => {
                    if !o.success {
                        proof {
                            lemma_judge_stops(cmd@, all, done.len() as int);
                        }
                        return match decode(o.stderr.as_slice()) {
                            Some(err) => Err(CtagsError::ExecFailed { cmd, err }),
                            None => Err(CtagsError::ConvFailed { s: o.stderr }),
                        };
                    }
                    outputs.push(o);
                    proof {
                        assert(outputs.deep_view() =~= outs_before.push(o@));
                    }
                },
            }
            proof {
                done = done.push(w@);
            }
        }
        proof {
            assert(rest.deep_view() =~= Seq::empty());
            assert(done =~= all);
        }
        Ok(outputs)
    }

    /// Builds the arguments of the run that probes the tool for its header.
    /// `list` is the path of an empty file, `tags` the path that the tool
    /// writes to.
    pub fn get_header_args(opt: &Opt, list: &str, tags: &str) -> (args: Vec<String>)
        ensures
            args.deep_view() == header_args(opt@, list@, tags@),
    {
        let mut from = "-L ".to_owned();
        from.append(list);
        let mut to = "-f ".to_owned();
        to.append(tags);
        let mut args: Vec<String> = Vec::new();
        args.push(from);
        args.push(to);
        let ghost head = args.deep_view();
        proof {
            assert(head =~= seq!["-L "@ + list@, "-f "@ + tags@]);
        }
        let mut j: usize = 0;
        while j < opt.opt_ctags.len()
            invariant
                j <= opt.opt_ctags.len(),
                args.deep_view() == head + opt.opt_ctags.deep_view().take(j as int),
            decreases opt.opt_ctags.len() - j,
        {
            let ghost before = args.deep_view();
            args.push(opt.opt_ctags[j].clone());
            proof {
                assert(args.deep_view() =~= before.push(opt.opt_ctags[j as int]@));
                assert(opt.opt_ctags.deep_view().take(j + 1) =~= opt.opt_ctags.deep_view().take(
                    j as int,
                ).push(opt.opt_ctags[j as int]@));
            }
            j += 1;
        }
        proof {
            assert(opt.opt_ctags.deep_view().take(opt.opt_ctags.len() as int)
                =~= opt.opt_ctags.deep_view());
        }
        args
    }

    /// Reads the header off what the probe wrote. How the probe exited plays
    /// no part: whatever it wrote is the header, if it is text.
    pub fn get_tags_header(written: &[u8]) -> (r: Result<String, CtagsError>)
        ensures
            match r {
                Ok(header) => header_of(written@) == Ok::<Seq<char>, CtagsErrorView>(header@),
                Err(e) => header_of(written@) == Err::<Seq<char>, CtagsErrorView>(e@),
            },
    {
        match decode(written) {
            Some(header) => Ok(header),
            None => Err(CtagsError::ConvFailed { s: vstd::slice::slice_to_vec(written) }),
        }
    }

    /// Tells from what the tool printed on `--version` whether it is
    /// Exuberant Ctags: the output is text and starts with that name.
    pub fn is_exuberant_ctags(stdout: &[u8]) -> (r: Result<bool, CtagsError>)
        ensures
            match r {
                Ok(b) => valid_utf8(stdout@) && b == encode_utf8("Exuberant Ctags"@).is_prefix_of(
                    stdout@,
                ),
                Err(e) => !valid_utf8(stdout@) && e@ == (CtagsErrorView::ConvFailed { s: stdout@ }),
            },
    {
        if crate::decode::from_utf8(stdout).is_none() {
            return Err(CtagsError::ConvFailed { s: vstd::slice::slice_to_vec(stdout) });
        }
        Ok(starts_with(stdout, "Exuberant Ctags".as_bytes()))
    }

    /// Writes out the command line of the tool with `args`, for diagnostics.
    pub fn get_cmd(opt: &Opt, args: &[String]) -> (cmd: String)
        ensures
            cmd@ == command_line(opt@.dir, opt@.bin_ctags, args.deep_view()),
    {
        show_command(opt.dir.as_str(), opt.bin_ctags.as_str(), args)
    }

    /// The pipe size to ask for before a payload of `len` bytes is written.
    pub fn pipe_size(len: usize) -> (n: i32)
        ensures
            n == pipe_size_of(len),
            len <= 1048576 ==> n == len,
            1048576 <= len <= i32::MAX ==> n == 1048576,
    {
        let n: i32 = #[verifier::truncate] (len as i32);
        if n < 1048576 {
            n
        } else {
            1048576
        }
    }
}

} // verus!
