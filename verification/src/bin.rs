//! The options of a run, the sharding of the file list and the writing of the tag file.

use crate::cmd_ctags::{ctags_message, CtagsError, CtagsErrorView};
use crate::cmd_git::{git_message, GitError, GitErrorView};
use crate::decode::from_utf8;
use crate::lines::{lines_of, split_lines, LF};
use crate::merge::{concat_lines, merge_lines, merged};
use crate::output::{Output, OutputView};
use crate::shard::{shard_of, shard_text, shard_texts};
use crate::show::{decimal, push_decimal};
use vstd::prelude::*;
use vstd::string::StringExecFns;
use vstd::utf8::{encode_utf8, valid_utf8};

verus! {

/// The options of one run.
#[derive(Debug, Clone, PartialEq, Eq)]
pub struct Opt {
    /// Number of workers that generate tags side by side.
    pub thread: usize,
    /// Name of the tag file; `-` stands for the standard output.
    pub output: String,
    /// Directory that is searched.
    pub dir: String,
    /// Whether statistics are shown after the run.
    pub stat: bool,
    /// Path of the ctags binary.
    pub bin_ctags: String,
    /// Path of the git binary.
    pub bin_git: String,
    /// Options passed on to ctags.
    pub opt_ctags: Vec<String>,
    /// Options passed on to git.
    pub opt_git: Vec<String>,
    /// Options passed on to git-lfs.
    pub opt_git_lfs: Vec<String>,
    /// Whether each command line is reported before it runs.
    pub verbose: bool,
    /// Whether files tracked by git-lfs are left out.
    pub exclude_lfs: bool,
    /// Whether untracked files are taken in.
    pub include_untracked: bool,
    /// Whether ignored files are taken in.
    pub include_ignored: bool,
    /// Whether the files of submodules are taken in.
    pub include_submodule: bool,
    /// Whether the tag streams must be well-formed UTF-8.
    pub validate_utf8: bool,
    /// Whether the tags are left unsorted.
    pub unsorted: bool,
    /// Glob patterns of files that ctags leaves out.
    pub exclude: Vec<String>,
    /// The shell for which a completion file is generated, if any.
    pub completion: Option<String>,
    /// Whether a sample configuration is printed in place of a run.
    pub config: bool,
}

/// The mathematical content of an [`Opt`].
pub struct OptView {
    pub thread: nat,
    pub output: Seq<char>,
    pub dir: Seq<char>,
    pub stat: bool,
    pub bin_ctags: Seq<char>,
    pub bin_git: Seq<char>,
    pub opt_ctags: Seq<Seq<char>>,
    pub opt_git: Seq<Seq<char>>,
    pub opt_git_lfs: Seq<Seq<char>>,
    pub verbose: bool,
    pub exclude_lfs: bool,
    pub include_untracked: bool,
    pub include_ignored: bool,
    pub include_submodule: bool,
    pub validate_utf8: bool,
    pub unsorted: bool,
    pub exclude: Seq<Seq<char>>,
    pub completion: Option<Seq<char>>,
    pub config: bool,
}

impl View for Opt {
    type V = OptView;

    open spec fn view(&self) -> OptView {
        OptView {
            thread: self.thread as nat,
            output: self.output@,
            dir: self.dir@,
            stat: self.stat,
            bin_ctags: self.bin_ctags@,
            bin_git: self.bin_git@,
            opt_ctags: self.opt_ctags.deep_view(),
            opt_git: self.opt_git.deep_view(),
            opt_git_lfs: self.opt_git_lfs.deep_view(),
            verbose: self.verbose,
            exclude_lfs: self.exclude_lfs,
            include_untracked: self.include_untracked,
            include_ignored: self.include_ignored,
            include_submodule: self.include_submodule,
            validate_utf8: self.validate_utf8,
            unsorted: self.unsorted,
            exclude: self.exclude.deep_view(),
            completion: self.completion.deep_view(),
            config: self.config,
        }
    }
}

/// The options of a run that was given no argument.
pub open spec fn default_options() -> OptView {
    OptView {
        thread: 8,
        output: "tags"@,
        dir: "."@,
        stat: false,
        bin_ctags: "ctags"@,
        bin_git: "git"@,
        opt_ctags: Seq::empty(),
        opt_git: Seq::empty(),
        opt_git_lfs: Seq::empty(),
        verbose: false,
        exclude_lfs: false,
        include_untracked: false,
        include_ignored: false,
        include_submodule: false,
        validate_utf8: false,
        unsorted: false,
        exclude: Seq::empty(),
        completion: None,
        config: false,
    }
}

impl Default for Opt {
    fn default() -> (r: Opt)
        ensures
            r@ == default_options(),
    {
        let r = Opt {
            thread: 8,
            output: "tags".to_owned(),
            dir: ".".to_owned(),
            stat: false,
            bin_ctags: "ctags".to_owned(),
            bin_git: "git".to_owned(),
            opt_ctags: Vec::new(),
            opt_git: Vec::new(),
            opt_git_lfs: Vec::new(),
            verbose: false,
            exclude_lfs: false,
            include_untracked: false,
            include_ignored: false,
            include_submodule: false,
            validate_utf8: false,
            unsorted: false,
            exclude: Vec::new(),
            completion: None,
            config: false,
        };
        proof {
            assert(r.opt_ctags.deep_view() =~= Seq::empty());
            assert(r.opt_git.deep_view() =~= Seq::empty());
            assert(r.opt_git_lfs.deep_view() =~= Seq::empty());
            assert(r.exclude.deep_view() =~= Seq::empty());
        }
        r
    }
}

/// Deals the file list out to the workers, round robin: shard `i` gets every
/// path whose index is congruent to `i` modulo the number of workers, in the
/// order of the list, each path followed by a line feed.
pub fn git_files(opt: &Opt, list: &[String]) -> (files: Vec<String>)
    requires
        opt.thread >= 1,
    ensures
        files.deep_view() == shard_texts(list.deep_view(), opt.thread as int),
{
    let n = opt.thread;
    let ghost all = list.deep_view();
    let mut files: Vec<String> = Vec::new();
    while files.len() < n
        invariant
            files.len() <= n,
            forall|i: int| 0 <= i < files.len() ==> (#[trigger] files[i])@ == Seq::<char>::empty(),
        decreases n - files.len(),
    {
        files.push(String::new());
    }
    let mut j: usize = 0;
    proof {
        assert(all.take(0) =~= Seq::empty());
    }
    while j < list.len()
        invariant
            n == opt.thread,
            n >= 1,
            all == list.deep_view(),
            j <= list.len(),
            files.len() == n,
            forall|i: int|
                0 <= i < n ==> (#[trigger] files[i])@ == shard_text(
                    shard_of(all.take(j as int), n as int, i),
                ),
        decreases list.len() - j,
    {
        let ghost before = files@;
        let r = j % n;
        let shard = &mut files[r];
        shard.append(list[j].as_str());
        shard.append("\n");
        proof {
            reveal_strlit("\n");
            assert("\n"@ =~= seq!['\n']);
            let now = all.take(j + 1);
            assert(now.drop_last() =~= all.take(j as int));
            assert(now.last() == list[j as int]@);
            assert(files@[r as int]@ =~= before[r as int]@ + list[j as int]@.push('\n'));
            assert forall|i: int| 0 <= i < n implies (#[trigger] files[i])@ == shard_text(
                shard_of(now, n as int, i),
            ) by {
                assert(now.len() - 1 == j);
                let prev = shard_of(all.take(j as int), n as int, i);
                assert(before[i]@ == shard_text(prev));
                if i != r {
                    assert(files[i] == before[i]);
                    assert(shard_of(now, n as int, i) == prev);
                } else {
                    let cur = shard_of(now, n as int, i);
                    assert(cur == prev.push(now.last()));
                    assert(cur.drop_last() =~= prev);
                    assert(cur.last() == now.last());
                }
            }
        }
        j += 1;
    }
    proof {
        assert(all.take(list.len() as int) =~= all);
        assert(files.deep_view() =~= shard_texts(all, n as int));
    }
    files
}

/// Why a run ended without a tag file.
#[derive(Debug, Clone, PartialEq, Eq)]
pub enum Error {
    /// The file list could not be had.
    Files(GitError),
    /// The tag tool gave no usable result.
    Tags(CtagsError),
    /// Validation was asked for and the tag stream of this worker is not
    /// well-formed UTF-8.
    Decoding { worker: usize },
    /// The driver of the run handed back something that was not asked for.
    Unexpected,
}

/// The mathematical content of an [`Error`].
pub enum ErrorView {
    Files(GitErrorView),
    Tags(CtagsErrorView),
    Decoding { worker: int },
    Unexpected,
}

impl View for Error {
    type V = ErrorView;

    open spec fn view(&self) -> ErrorView {
        match self {
            Error::Files(e) => ErrorView::Files(e@),
            Error::Tags(e) => ErrorView::Tags(e@),
            Error::Decoding { worker } => ErrorView::Decoding { worker: *worker as int },
            Error::Unexpected => ErrorView::Unexpected,
        }
    }
}

/// What a reader is told of an error of a run.
pub open spec fn error_message(e: ErrorView) -> Seq<char> {
    match e {
        ErrorView::Files(e) => git_message(e),
        ErrorView::Tags(e) => ctags_message(e),
        ErrorView::Decoding { worker } => "failed to convert to UTF-8 (output of worker "@
            + decimal(worker as nat) + ")"@,
        ErrorView::Unexpected => "unexpected event"@,
    }
}

impl Error {
    /// Writes out what a reader is told of the error.
    pub fn message(&self) -> (text: String)
        ensures
            text@ == error_message(self@),
    {
        match self {
            Error::Files(e) => e.message(),
            Error::Tags(e) => e.message(),
            Error::Decoding { worker } => {
                let mut text = "failed to convert to UTF-8 (output of worker ".to_owned();
                push_decimal(&mut text, *worker);
                text.append(")");
                text
            },
            Error::Unexpected => "unexpected event".to_owned(),
        }
    }
}

/// The bytes of the tag file of a run, or the error that keeps the run from
/// writing one: with validation, the first worker whose tag stream is not
/// well-formed UTF-8.
pub open spec fn written(opt: OptView, header: Seq<char>, outputs: Seq<OutputView>) -> Result<
    Seq<u8>,
    ErrorView,
> {
    if opt.validate_utf8 && first_undecodable(outputs) is Some {
        Err(ErrorView::Decoding { worker: first_undecodable(outputs)->0 })
    } else {
        Ok(tag_file(header, outputs, opt.unsorted))
    }
}

/// The mathematical content of what [`write_tags`] hands back.
pub open spec fn written_view(r: Result<Vec<u8>, Error>) -> Result<Seq<u8>, ErrorView> {
    match r {
        Ok(bytes) => Ok(bytes@),
        Err(e) => Err(e@),
    }
}

/// The bytes of `lines`, each followed by a line feed.
pub open spec fn join_lines(lines: Seq<Seq<u8>>) -> Seq<u8>
    decreases lines.len(),
{
    if lines.len() == 0 {
        Seq::empty()
    } else {
        join_lines(lines.drop_last()) + lines.last().push(LF)
    }
}

/// The lines of each worker's tag stream.
pub open spec fn tag_streams(outputs: Seq<OutputView>) -> Seq<Seq<Seq<u8>>> {
    outputs.map_values(|o: OutputView| split_lines(o.stdout))
}

/// The tag file: the header as it is, then the merged lines of the workers,
/// each followed by a line feed.
pub open spec fn tag_file(header: Seq<char>, outputs: Seq<OutputView>, unsorted: bool) -> Seq<u8> {
    encode_utf8(header) + join_lines(merged(tag_streams(outputs), unsorted))
}

/// The first worker whose tag stream is not well-formed UTF-8, if there is one.
pub open spec fn first_undecodable(outputs: Seq<OutputView>) -> Option<int>
    decreases outputs.len(),
{
    if outputs.len() == 0 {
        None
    } else {
        match first_undecodable(outputs.drop_last()) {
            Some(i) => Some(i),
            None => if valid_utf8(outputs.last().stdout) {
                None
            } else {
                Some(outputs.len() - 1)
            },
        }
    }
}

/// Finds the first worker whose tag stream is not well-formed UTF-8.
pub fn find_undecodable(outputs: &[Output]) -> (r: Option<usize>)
    ensures
        match r {
            Some(w) => first_undecodable(outputs.deep_view()) == Some(w as int),
            None => first_undecodable(outputs.deep_view()) is None,
        },
{
    let ghost all = outputs.deep_view();
    let mut i: usize = 0;
    proof {
        assert(all.take(0) =~= Seq::empty());
    }
    while i < outputs.len()
        invariant
            i <= outputs.len(),
            all == outputs.deep_view(),
            first_undecodable(all.take(i as int)) is None,
        decreases outputs.len() - i,
    {
        proof {
            assert(all.take(i + 1).drop_last() =~= all.take(i as int));
            assert(all.take(i + 1).last().stdout == outputs[i as int].stdout@);
        }
        if from_utf8(outputs[i].stdout.as_slice()).is_none() {
            proof {
                lemma_first_undecodable_stays(all, i + 1);
            }
            return Some(i);
        }
        i += 1;
    }
    proof {
        assert(all.take(outputs.len() as int) =~= all);
    }
    None
}

/// Builds the bytes of the tag file from the header and the workers' outputs,
/// which are given in shard order.
///
/// Without validation every output is taken as it is. With validation the
/// first output that is not well-formed UTF-8 ends the run.
pub fn write_tags(opt: &Opt, header: &str, outputs: &[Output]) -> (r: Result<Vec<u8>, Error>)
    ensures
        written_view(r) == written(opt@, header@, outputs.deep_view()),
{
    let ghost all = outputs.deep_view();
    let mut streams: Vec<Vec<&[u8]>> = Vec::new();
    let mut i: usize = 0;
    proof {
        assert(streams.deep_view() =~= tag_streams(all.take(0)));
    }
    while i < outputs.len()
        invariant
            i <= outputs.len(),
            all == outputs.deep_view(),
            streams.deep_view() == tag_streams(all.take(i as int)),
            opt.validate_utf8 ==> first_undecodable(all.take(i as int)) is None,
        decreases outputs.len() - i,
    {
        let stdout = outputs[i].stdout.as_slice();
        proof {
            assert(all.take(i + 1).drop_last() =~= all.take(i as int));
            assert(all.take(i + 1).last().stdout == stdout@);
        }
        if opt.validate_utf8 && from_utf8(stdout).is_none() {
            proof {
                lemma_first_undecodable_stays(all, i + 1);
            }
            return Err(Error::Decoding { worker: i });
        }
        let ghost before = streams.deep_view();
        let lines = lines_of(stdout);
        streams.push(lines);
        proof {
            assert(streams.deep_view() =~= before.push(split_lines(stdout@)));
            assert(tag_streams(all.take(i + 1)) =~= tag_streams(all.take(i as int)).push(
                split_lines(stdout@),
            ));
        }
        i += 1;
    }
    proof {
        assert(all.take(outputs.len() as int) =~= all);
    }
    let merged_lines = if opt.unsorted {
        concat_lines(&streams)
    } else {
        merge_lines(&streams)
    };
    let mut bytes: Vec<u8> = Vec::new();
    bytes.extend_from_slice(header.as_bytes());
    let ghost lines = merged_lines.deep_view();
    let mut k: usize = 0;
    proof {
        assert(bytes@ =~= encode_utf8(header@) + join_lines(lines.take(0)));
    }
    while k < merged_lines.len()
        invariant
            k <= merged_lines.len(),
            lines == merged_lines.deep_view(),
            bytes@ == encode_utf8(header@) + join_lines(lines.take(k as int)),
        decreases merged_lines.len() - k,
    {
        let ghost before = bytes@;
        bytes.extend_from_slice(merged_lines[k]);
        bytes.push(LF);
        proof {
            crate::lines::lemma_bytes_deep_view(merged_lines[k as int]);
            assert(lines.take(k + 1).drop_last() =~= lines.take(k as int));
            assert(lines.take(k + 1).last() == merged_lines[k as int]@);
            assert(bytes@ =~= before + merged_lines[k as int]@.push(LF));
        }
        k += 1;
    }
    proof {
        assert(lines.take(merged_lines.len() as int) =~= lines);
    }
    Ok(bytes)
}

/// The tag file is fixed by the header, the mode and what the workers wrote
/// to their standard outputs: two runs that agree in these write the same
/// bytes.
pub proof fn lemma_tag_file_repeats(
    header: Seq<char>,
    first: Seq<OutputView>,
    second: Seq<OutputView>,
    unsorted: bool,
)
    requires
        first.len() == second.len(),
        forall|i: int| 0 <= i < first.len() ==> (#[trigger] first[i]).stdout == second[i].stdout,
    ensures
        tag_file(header, first, unsorted) == tag_file(header, second, unsorted),
{
    assert(tag_streams(first) =~= tag_streams(second));
}

/// The first undecodable output of a prefix is that of the whole.
pub proof fn lemma_first_undecodable_stays(outputs: Seq<OutputView>, k: int)
    requires
        0 <= k <= outputs.len(),
        first_undecodable(outputs.take(k)) is Some,
    ensures
        first_undecodable(outputs) == first_undecodable(outputs.take(k)),
    decreases outputs.len(),
{
    if k == outputs.len() {
        assert(outputs.take(k) =~= outputs);
    } else {
        assert(outputs.drop_last().take(k) =~= outputs.take(k));
        lemma_first_undecodable_stays(outputs.drop_last(), k);
    }
}

} // verus!
