//! The file lister: its arguments, the judging of its runs and the reading of
//! what it printed.

use crate::bin::Opt;
use crate::bin::OptView;
use crate::command::command_line;
use crate::command::show_command;
use crate::decode::{decode, from_utf8, lemma_lines_valid};
use crate::lfs::{field_of, lemma_field_valid, lfs_path, lfs_paths, starts_with, without_all};
use crate::lines::{ascending, lemma_bytes_deep_view, lines_of, split_lines};
use crate::output::Output;
use crate::output::OutputView;
use crate::show::{push_shown, shown};
use crate::sort::{lemma_sorted, sort_lines, sorted};
use vstd::prelude::*;
use vstd::string::StringExecFns;
use vstd::utf8::{decode_utf8, encode_utf8, valid_utf8};

verus! {

/// Why the file lister gave no usable result.
#[derive(Debug, Clone, PartialEq, Eq)]
pub enum GitError {
    /// The lister ran and exited with a failure status; `err` is what it
    /// wrote to its standard error.
    ExecFailed { cmd: String, err: String },
    /// The lister could not be started; `cause` says why.
    CallFailed { cmd: String, cause: String },
    /// Bytes that had to be text were not well-formed UTF-8.
    ConvFailed { s: Vec<u8> },
}

/// The mathematical content of a [`GitError`].
pub enum GitErrorView {
    ExecFailed { cmd: Seq<char>, err: Seq<char> },
    CallFailed { cmd: Seq<char>, cause: Seq<char> },
    ConvFailed { s: Seq<u8> },
}

impl View for GitError {
    type V = GitErrorView;

    open spec fn view(&self) -> GitErrorView {
        match self {
            GitError::ExecFailed { cmd, err } => GitErrorView::ExecFailed { cmd: cmd@, err: err@ },
            GitError::CallFailed { cmd, cause } => GitErrorView::CallFailed {
                cmd: cmd@,
                cause: cause@,
            },
            GitError::ConvFailed { s } => GitErrorView::ConvFailed { s: s@ },
        }
    }
}

/// What a reader is told of an error of the file lister.
pub open spec fn git_message(e: GitErrorView) -> Seq<char> {
    match e {
        GitErrorView::ExecFailed { cmd, err } => "failed to execute git command ("@ + cmd
            + ")\n"@ + err,
        GitErrorView::CallFailed { cmd, cause } => "failed to call git command ("@ + cmd + ")"@,
        GitErrorView::ConvFailed { s } => "failed to convert to UTF-8 ("@ + shown(s) + ")"@,
    }
}

impl GitError {
    /// Writes out what a reader is told of the error.
    pub fn message(&self) -> (text: String)
        ensures
            text@ == git_message(self@),
    {
        match self {
            GitError::ExecFailed { cmd, err } => {
                let mut text = "failed to execute git command (".to_owned();
                text.append(cmd.as_str());
                text.append(")\n");
                text.append(err.as_str());
                text
            },
            GitError::CallFailed { cmd, cause } => {
                let mut text = "failed to call git command (".to_owned();
                text.append(cmd.as_str());
                text.append(")");
                text
            },
            GitError::ConvFailed { s } => {
                let mut text = "failed to convert to UTF-8 (".to_owned();
                push_shown(&mut text, s.as_slice());
                text.append(")");
                text
            },
        }
    }
}

/// The content of a run: the output of a command that ran to its end, or
/// the reason why it could not be started.
pub open spec fn ran_view(ran: Result<Output, String>) -> Result<OutputView, Seq<char>> {
    match ran {
        Ok(o) => Ok(o@),
        Err(cause) => Err(cause@),
    }
}

/// The outcome of one run of the command line `cmd`: the output of a run that
/// succeeded, else the error that the run stands for.
pub open spec fn checked(cmd: Seq<char>, ran: Result<OutputView, Seq<char>>) -> Result<
    OutputView,
    GitErrorView,
> {
    match ran {
        Err(cause) => Err(GitErrorView::CallFailed { cmd, cause }),
        Ok(o) => if o.success {
            Ok(o)
        } else if valid_utf8(o.stderr) {
            Err(GitErrorView::ExecFailed { cmd, err: decode_utf8(o.stderr) })
        } else {
            Err(GitErrorView::ConvFailed { s: o.stderr })
        },
    }
}

/// What a run that had to print text printed: the standard output of a run
/// that succeeded, where that is well-formed UTF-8.
pub open spec fn printed(cmd: Seq<char>, ran: Result<OutputView, Seq<char>>) -> Result<
    Seq<u8>,
    GitErrorView,
> {
    match checked(cmd, ran) {
        Err(e) => Err(e),
        Ok(o) => if valid_utf8(o.stdout) {
            Ok(o.stdout)
        } else {
            Err(GitErrorView::ConvFailed { s: o.stdout })
        },
    }
}

/// The arguments that list the files: the tracked ones, by the standard
/// exclusions; with them the files of submodules if they are asked for, else
/// the untracked files if those are; then the user's own options.
pub open spec fn ls_files_args(opt: OptView) -> Seq<Seq<char>> {
    seq!["ls-files"@, "--cached"@, "--exclude-standard"@] + (if opt.include_submodule {
        seq!["--recurse-submodules"@]
    } else if opt.include_untracked {
        seq!["--other"@]
    } else {
        Seq::empty()
    }) + opt.opt_git
}

/// The arguments that list the files tracked by git-lfs.
pub open spec fn lfs_args(opt: OptView) -> Seq<Seq<char>> {
    seq!["lfs"@, "ls-files"@] + opt.opt_git_lfs
}

/// The arguments that ask for the way up to the top of the working tree.
pub open spec fn cdup_args() -> Seq<Seq<char>> {
    seq!["rev-parse"@, "--show-cdup"@]
}

/// The arguments that ask for the way down from the top of the working tree.
pub open spec fn prefix_args() -> Seq<Seq<char>> {
    seq!["rev-parse"@, "--show-prefix"@]
}

/// The command line of the lister with `args`, run with the options `opt`.
pub open spec fn git_command(opt: OptView, args: Seq<Seq<char>>) -> Seq<char> {
    command_line(opt.dir, opt.bin_git, args)
}

/// Lines of well-formed UTF-8 as text.
pub open spec fn texts_of(lines: Seq<Seq<u8>>) -> Seq<Seq<char>> {
    lines.map_values(|l: Seq<u8>| decode_utf8(l))
}

/// The file list that the lister printed: one path per line, in ascending
/// byte order.
pub open spec fn file_list(stdout: Seq<u8>) -> Seq<Seq<char>> {
    texts_of(sorted(split_lines(stdout)))
}

/// The files tracked by git-lfs that the lister printed, as they are seen from
/// the directory that is searched, in ascending byte order.
pub open spec fn lfs_list(stdout: Seq<u8>, cdup: Seq<char>, prefix: Seq<char>) -> Seq<Seq<char>> {
    texts_of(sorted(lfs_paths(split_lines(stdout), encode_utf8(cdup), encode_utf8(prefix))))
}

/// The first line of a byte stream, empty where it has none.
pub open spec fn first_line(s: Seq<u8>) -> Seq<u8> {
    if split_lines(s).len() > 0 {
        split_lines(s)[0]
    } else {
        Seq::empty()
    }
}

/// The paths of `list` that are not among `banned`, in their order.
pub open spec fn without(list: Seq<Seq<char>>, banned: Seq<Seq<char>>) -> Seq<Seq<char>>
    decreases list.len(),
{
    if list.len() == 0 {
        Seq::empty()
    } else if banned.contains(list.last()) {
        without(list.drop_last(), banned)
    } else {
        without(list.drop_last(), banned).push(list.last())
    }
}

/// The file list of a run: the listed files, without the files tracked by
/// git-lfs where those are to be left out.
pub open spec fn files_kept(exclude_lfs: bool, list: Seq<Seq<char>>, lfs_list: Seq<Seq<char>>) -> Seq<
    Seq<char>,
> {
    if exclude_lfs {
        without(list, lfs_list)
    } else {
        list
    }
}

/// Tells whether `x` is among `list`.
fn holds(list: &[String], x: &String) -> (r: bool)
    ensures
        r == list.deep_view().contains(x@),
{
    let mut i: usize = 0;
    while i < list.len()
        invariant
            i <= list.len(),
            forall|j: int| 0 <= j < i ==> list.deep_view()[j] != x@,
        decreases list.len() - i,
    {
        if list[i] == *x {
            proof {
                assert(list.deep_view()[i as int] == x@);
            }
            return true;
        }
        i += 1;
    }
    false
}

/// The file list that a run of the lister gives, or the error that it stands for.
pub open spec fn ls_files_outcome(opt: OptView, ran: Result<OutputView, Seq<char>>) -> Result<
    Seq<Seq<char>>,
    GitErrorView,
> {
    match printed(git_command(opt, ls_files_args(opt)), ran) {
        Ok(stdout) => Ok(file_list(stdout)),
        Err(e) => Err(e),
    }
}

/// The way that a run of the command line `cmd` printed, or the error that
/// the run stands for.
pub open spec fn way_outcome(cmd: Seq<char>, ran: Result<OutputView, Seq<char>>) -> Result<
    Seq<char>,
    GitErrorView,
> {
    match printed(cmd, ran) {
        Ok(stdout) => Ok(decode_utf8(first_line(stdout))),
        Err(e) => Err(e),
    }
}

/// The files tracked by git-lfs that a successful run printed, or the error
/// that its output stands for.
pub open spec fn lfs_outcome(lfs: OutputView, cdup: Seq<char>, prefix: Seq<char>) -> Result<
    Seq<Seq<char>>,
    GitErrorView,
> {
    if valid_utf8(lfs.stdout) {
        Ok(lfs_list(lfs.stdout, cdup, prefix))
    } else {
        Err(GitErrorView::ConvFailed { s: lfs.stdout })
    }
}

/// Appends copies of `more` to `args`.
fn push_all(args: &mut Vec<String>, more: &Vec<String>)
    ensures
        final(args).deep_view() == old(args).deep_view() + more.deep_view(),
{
    let ghost start = args.deep_view();
    let mut j: usize = 0;
    proof {
        assert(more.deep_view().take(0) =~= Seq::empty());
        assert(args.deep_view() =~= start + more.deep_view().take(0));
    }
    while j < more.len()
        invariant
            j <= more.len(),
            args.deep_view() == start + more.deep_view().take(j as int),
        decreases more.len() - j,
    {
        let ghost before = args.deep_view();
        args.push(more[j].clone());
        proof {
            assert(args.deep_view() =~= before.push(more[j as int]@));
            assert(more.deep_view().take(j + 1) =~= more.deep_view().take(j as int).push(
                more[j as int]@,
            ));
        }
        j += 1;
    }
    proof {
        assert(more.deep_view().take(more.len() as int) =~= more.deep_view());
    }
}

/// Every line that is among `b` as a multiset is among `b` as a sequence.
proof fn lemma_same_lines_valid(a: Seq<Seq<u8>>, b: Seq<Seq<u8>>)
    requires
        a.to_multiset() == b.to_multiset(),
        forall|i: int| 0 <= i < b.len() ==> valid_utf8(#[trigger] b[i]),
    ensures
        forall|i: int| 0 <= i < a.len() ==> valid_utf8(#[trigger] a[i]),
{
    assert forall|i: int| 0 <= i < a.len() implies valid_utf8(#[trigger] a[i]) by {
        vstd::seq_lib::to_multiset_contains(a, a[i]);
        vstd::seq_lib::to_multiset_contains(b, a[i]);
        assert(a.contains(a[i]));
        let j = choose|j: int| 0 <= j < b.len() && b[j] == a[i];
        assert(valid_utf8(b[j]));
    }
}

/// Turns lines of well-formed UTF-8 into strings.
fn texts(lines: &Vec<&[u8]>) -> (list: Vec<String>)
    requires
        forall|i: int| 0 <= i < lines.len() ==> valid_utf8(#[trigger] lines.deep_view()[i]),
    ensures
        list.deep_view() == texts_of(lines.deep_view()),
{
    let mut list: Vec<String> = Vec::new();
    let mut i: usize = 0;
    proof {
        assert(list.deep_view() =~= texts_of(lines.deep_view().take(0)));
    }
    while i < lines.len()
        invariant
            i <= lines.len(),
            forall|k: int| 0 <= k < lines.len() ==> valid_utf8(#[trigger] lines.deep_view()[k]),
            list.deep_view() == texts_of(lines.deep_view().take(i as int)),
        decreases lines.len() - i,
    {
        proof {
            lemma_bytes_deep_view(lines[i as int]);
            assert(valid_utf8(lines.deep_view()[i as int]));
        }
        let ghost before = list.deep_view();
        match decode(lines[i]) {
            Some(s) => {
                list.push(s);
                proof {
                    assert(list.deep_view() =~= before.push(s@));
                    assert(lines.deep_view().take(i + 1) =~= lines.deep_view().take(i as int).push(
                        lines[i as int]@,
                    ));
                    assert(texts_of(lines.deep_view().take(i + 1)) =~= texts_of(
                        lines.deep_view().take(i as int),
                    ).push(decode_utf8(lines[i as int]@)));
                }
            },
            None => {
                proof {
                    assert(false);
                }
                return vstd::pervasive::unreached();
            },
        }
        i += 1;
    }
    proof {
        assert(lines.deep_view().take(lines.len() as int) =~= lines.deep_view());
    }
    list
}

/// The file lister.
pub struct CmdGit;

impl CmdGit {
    /// Judges one run of the lister with `args`: hands the output of a
    /// successful run on, and says what went wrong with any other.
    pub fn call(opt: &Opt, args: &[String], ran: Result<Output, String>) -> (r: Result<
        Output,
        GitError,
    >)
        ensures
            match r {
                Ok(o) => checked(git_command(opt@, args.deep_view()), ran_view(ran)) == Ok::<
                    OutputView,
                    GitErrorView,
                >(o@),
                Err(e) => checked(git_command(opt@, args.deep_view()), ran_view(ran)) == Err::<
                    OutputView,
                    GitErrorView,
                >(e@),
            },
    {
        let cmd = Self::get_cmd(opt, args);
        match ran {
            Err(cause) => Err(GitError::CallFailed { cmd, cause }),
            Ok(o) => {
                if o.success {
                    Ok(o)
                } else {
                    match decode(o.stderr.as_slice()) {
                        Some(err) => Err(GitError::ExecFailed { cmd, err }),
                        None => Err(GitError::ConvFailed { s: o.stderr }),
                    }
                }
            },
        }
    }

    /// Judges a run that had to print text: hands the output on where the run
    /// succeeded and printed well-formed UTF-8.
    fn text(opt: &Opt, args: &[String], ran: Result<Output, String>) -> (r: Result<
        Output,
        GitError,
    >)
        ensures
            match r {
                Ok(o) => printed(git_command(opt@, args.deep_view()), ran_view(ran)) == Ok::<
                    Seq<u8>,
                    GitErrorView,
                >(o.stdout@),
                Err(e) => printed(git_command(opt@, args.deep_view()), ran_view(ran)) == Err::<
                    Seq<u8>,
                    GitErrorView,
                >(e@),
            },
    {
        let output = Self::call(opt, args, ran)?;
        if from_utf8(output.stdout.as_slice()).is_none() {
            return Err(GitError::ConvFailed { s: output.stdout });
        }
        Ok(output)
    }

    /// Reads the file list off a run of the lister with the arguments of
    /// [`CmdGit::get_ls_files_args`]: one path per line, in ascending order.
    pub fn ls_files(opt: &Opt, ran: Result<Output, String>) -> (r: Result<Vec<String>, GitError>)
        ensures
            match printed(git_command(opt@, ls_files_args(opt@)), ran_view(ran)) {
                Ok(stdout) => r matches Ok(list) && list.deep_view() == file_list(stdout),
                Err(e) => r matches Err(x) && x@ == e,
            },
    {
        let args = Self::get_ls_files_args(opt);
        let output = Self::text(opt, args.as_slice(), ran)?;
        let lines = lines_of(output.stdout.as_slice());
        let unsorted = lines.as_slice();
        let sorted = sort_lines(unsorted);
        proof {
            lemma_lines_valid(output.stdout@);
            assert(unsorted.deep_view() =~= lines.deep_view());
            lemma_sorted(lines.deep_view());
            lemma_same_lines_valid(sorted.deep_view(), lines.deep_view());
        }
        Ok(texts(&sorted))
    }

    /// Reads the way up to the top of the working tree off a run of the
    /// lister with the arguments of [`CmdGit::get_cdup_args`]: the first line
    /// that it printed, empty where it printed none.
    pub fn show_cdup(opt: &Opt, ran: Result<Output, String>) -> (r: Result<String, GitError>)
        ensures
            match printed(git_command(opt@, cdup_args()), ran_view(ran)) {
                Ok(stdout) => r matches Ok(way) && way@ == decode_utf8(first_line(stdout)),
                Err(e) => r matches Err(x) && x@ == e,
            },
    {
        let args = Self::get_cdup_args();
        let output = Self::text(opt, args.as_slice(), ran)?;
        Ok(Self::first_line_of(&output))
    }

    /// Reads the way down from the top of the working tree off a run of the
    /// lister with the arguments of [`CmdGit::get_prefix_args`]: the first
    /// line that it printed, empty where it printed none.
    pub fn show_prefix(opt: &Opt, ran: Result<Output, String>) -> (r: Result<String, GitError>)
        ensures
            match printed(git_command(opt@, prefix_args()), ran_view(ran)) {
                Ok(stdout) => r matches Ok(way) && way@ == decode_utf8(first_line(stdout)),
                Err(e) => r matches Err(x) && x@ == e,
            },
    {
        let args = Self::get_prefix_args();
        let output = Self::text(opt, args.as_slice(), ran)?;
        Ok(Self::first_line_of(&output))
    }

    /// Reads the files tracked by git-lfs off the output of a successful run
    /// of the lister with the arguments of [`CmdGit::get_lfs_args`]. `cdup`
    /// and `prefix` are the ways up to and down from the top of the working
    /// tree. The paths come out as they are seen from the directory that is
    /// searched, in ascending order.
    pub fn lfs_ls_files(output: &Output, cdup: &str, prefix: &str) -> (r: Result<
        Vec<String>,
        GitError,
    >)
        ensures
            match r {
                Ok(list) => valid_utf8(output.stdout@) && list.deep_view() == lfs_list(
                    output.stdout@,
                    cdup@,
                    prefix@,
                ),
                Err(e) => !valid_utf8(output.stdout@) && e@ == (GitErrorView::ConvFailed {
                    s: output.stdout@,
                }),
            },
    {
        let stdout = output.stdout.as_slice();
        if from_utf8(stdout).is_none() {
            return Err(GitError::ConvFailed { s: output.stdout.clone() });
        }
        let up = cdup.as_bytes();
        let down = prefix.as_bytes();
        let lines = lines_of(stdout);
        let ghost wanted = lfs_paths(lines.deep_view(), up@, down@);
        let mut paths: Vec<Vec<u8>> = Vec::new();
        let mut i: usize = 0;
        proof {
            lemma_lines_valid(stdout@);
            vstd::utf8::encode_utf8_valid_utf8(cdup@);
            vstd::utf8::encode_utf8_valid_utf8(prefix@);
            assert(paths.deep_view() =~= wanted.take(0));
        }
        while i < lines.len()
            invariant
                i <= lines.len(),
                wanted == lfs_paths(lines.deep_view(), up@, down@),
                valid_utf8(up@),
                valid_utf8(down@),
                forall|k: int| 0 <= k < lines.len() ==> valid_utf8(#[trigger] lines.deep_view()[k]),
                paths.deep_view() == wanted.take(i as int),
                forall|k: int| 0 <= k < i ==> valid_utf8(#[trigger] paths.deep_view()[k]),
            decreases lines.len() - i,
        {
            let line = lines[i];
            let f = field_of(line, 2);
            proof {
                lemma_bytes_deep_view(line);
                assert(valid_utf8(lines.deep_view()[i as int]));
                lemma_field_valid(line@, 2);
            }
            let path = if starts_with(f, down) {
                without_all(f, down)
            } else {
                let mut p = vstd::slice::slice_to_vec(up);
                p.extend_from_slice(f);
                proof {
                    assert(p@ =~= up@ + f@);
                    vstd::utf8::valid_utf8_concat(up@, f@);
                }
                p
            };
            let ghost before = paths.deep_view();
            proof {
                assert(path@ == lfs_path(line@, up@, down@));
                assert(path.deep_view() =~= path@);
            }
            paths.push(path);
            proof {
                assert(paths.deep_view() =~= before.push(lfs_path(line@, up@, down@)));
                assert(wanted.take(i + 1) =~= wanted.take(i as int).push(wanted[i as int]));
            }
            i += 1;
        }
        let mut refs: Vec<&[u8]> = Vec::new();
        let mut j: usize = 0;
        proof {
            assert(wanted.take(lines.len() as int) =~= wanted);
            assert(refs.deep_view() =~= paths.deep_view().take(0));
        }
        while j < paths.len()
            invariant
                j <= paths.len(),
                refs.deep_view() == paths.deep_view().take(j as int),
            decreases paths.len() - j,
        {
            let ghost before = refs.deep_view();
            let path = paths[j].as_slice();
            refs.push(path);
            proof {
                lemma_bytes_deep_view(path);
                assert(paths[j as int].deep_view() =~= paths[j as int]@);
                assert(refs.deep_view() =~= before.push(path@));
                assert(paths.deep_view().take(j + 1) =~= paths.deep_view().take(j as int).push(
                    paths.deep_view()[j as int],
                ));
            }
            j += 1;
        }
        let unsorted = refs.as_slice();
        let sorted = sort_lines(unsorted);
        proof {
            assert(paths.deep_view().take(paths.len() as int) =~= paths.deep_view());
            assert(unsorted.deep_view() =~= refs.deep_view());
            lemma_sorted(paths.deep_view());
            lemma_same_lines_valid(sorted.deep_view(), paths.deep_view());
        }
        Ok(texts(&sorted))
    }

    /// Settles the file list of a run: the listed files, without those of
    /// `lfs_list` where the files tracked by git-lfs are to be left out.
    pub fn get_files(opt: &Opt, list: Vec<String>, lfs_list: &[String]) -> (files: Vec<String>)
        ensures
            files.deep_view() == files_kept(opt.exclude_lfs, list.deep_view(), lfs_list.deep_view()),
    {
        if !opt.exclude_lfs {
            return list;
        }
        Self::keep(list, lfs_list)
    }

    /// Drops the files of `lfs_list` from `list`.
    pub fn keep(list: Vec<String>, lfs_list: &[String]) -> (files: Vec<String>)
        ensures
            files.deep_view() == without(list.deep_view(), lfs_list.deep_view()),
    {
        let mut files: Vec<String> = Vec::new();
        let mut i: usize = 0;
        proof {
            assert(list.deep_view().take(0) =~= Seq::empty());
            assert(files.deep_view() =~= Seq::empty());
        }
        while i < list.len()
            invariant
                i <= list.len(),
                files.deep_view() == without(list.deep_view().take(i as int), lfs_list.deep_view()),
            decreases list.len() - i,
        {
            let ghost before = files.deep_view();
            proof {
                let now = list.deep_view().take(i + 1);
                assert(now.drop_last() =~= list.deep_view().take(i as int));
                assert(now.last() == list[i as int]@);
            }
            if !holds(lfs_list, &list[i]) {
                files.push(list[i].clone());
                proof {
                    assert(files.deep_view() =~= before.push(list[i as int]@));
                }
            }
            i += 1;
        }
        proof {
            assert(list.deep_view().take(list.len() as int) =~= list.deep_view());
        }
        files
    }

    /// The first line of what a run printed, as text.
    fn first_line_of(output: &Output) -> (line: String)
        requires
            valid_utf8(output.stdout@),
        ensures
            line@ == decode_utf8(first_line(output.stdout@)),
    {
        let lines = lines_of(output.stdout.as_slice());
        if lines.len() == 0 {
            proof {
                assert(decode_utf8(Seq::<u8>::empty()) =~= Seq::<char>::empty());
            }
            return String::new();
        }
        proof {
            lemma_lines_valid(output.stdout@);
            lemma_bytes_deep_view(lines[0]);
            assert(valid_utf8(lines.deep_view()[0]));
        }
        match decode(lines[0]) {
            Some(line) => line,
            None => {
                proof {
                    assert(false);
                }
                vstd::pervasive::unreached()
            },
        }
    }

    /// Builds the arguments that list the files.
    pub fn get_ls_files_args(opt: &Opt) -> (args: Vec<String>)
        ensures
            args.deep_view() == ls_files_args(opt@),
    {
        let mut args: Vec<String> = Vec::new();
        args.push("ls-files".to_owned());
        args.push("--cached".to_owned());
        args.push("--exclude-standard".to_owned());
        if opt.include_submodule {
            args.push("--recurse-submodules".to_owned());
        } else if opt.include_untracked {
            args.push("--other".to_owned());
        }
        proof {
            assert(args.deep_view() =~= seq!["ls-files"@, "--cached"@, "--exclude-standard"@] + (
            if opt.include_submodule {
                seq!["--recurse-submodules"@]
            } else if opt.include_untracked {
                seq!["--other"@]
            } else {
                Seq::empty()
            }));
        }
        push_all(&mut args, &opt.opt_git);
        args
    }

    /// Builds the arguments that list the files tracked by git-lfs.
    pub fn get_lfs_args(opt: &Opt) -> (args: Vec<String>)
        ensures
            args.deep_view() == lfs_args(opt@),
    {
        let mut args: Vec<String> = Vec::new();
        args.push("lfs".to_owned());
        args.push("ls-files".to_owned());
        proof {
            assert(args.deep_view() =~= seq!["lfs"@, "ls-files"@]);
        }
        push_all(&mut args, &opt.opt_git_lfs);
        args
    }

    /// Builds the arguments that ask for the way up to the top of the working tree.
    pub fn get_cdup_args() -> (args: Vec<String>)
        ensures
            args.deep_view() == cdup_args(),
    {
        let mut args: Vec<String> = Vec::new();
        args.push("rev-parse".to_owned());
        args.push("--show-cdup".to_owned());
        proof {
            assert(args.deep_view() =~= cdup_args());
        }
        args
    }

    /// Builds the arguments that ask for the way down from the top of the
    /// working tree.
    pub fn get_prefix_args() -> (args: Vec<String>)
        ensures
            args.deep_view() == prefix_args(),
    {
        let mut args: Vec<String> = Vec::new();
        args.push("rev-parse".to_owned());
        args.push("--show-prefix".to_owned());
        proof {
            assert(args.deep_view() =~= prefix_args());
        }
        args
    }

    /// Writes out the command line of the lister with `args`, for diagnostics.
    pub fn get_cmd(opt: &Opt, args: &[String]) -> (cmd: String)
        ensures
            cmd@ == git_command(opt@, args.deep_view()),
    {
        show_command(opt.dir.as_str(), opt.bin_git.as_str(), args)
    }
}

} // verus!
