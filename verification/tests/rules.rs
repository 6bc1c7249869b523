use ptagslib::bin::{find_undecodable, git_files, write_tags, Error, Opt};
use ptagslib::cmd_ctags::{CmdCtags, CtagsError, WorkerResult};
use ptagslib::cmd_git::{CmdGit, GitError};
use ptagslib::decode::{decode, same_text};
use ptagslib::lfs::{field_of, starts_with, without_all};
use ptagslib::lines::{line_less, lines_of};
use ptagslib::merge::{concat_lines, merge_lines};
use ptagslib::output::Output;
use ptagslib::run::{shell_of, sink_of, step, Action, Event, Shell, Sink, State};
use ptagslib::sort::sort_lines;

fn with_threads(n: usize) -> Opt {
    let mut opt = Opt::default();
    opt.thread = n;
    opt
}

fn strings(v: &[&str]) -> Vec<String> {
    v.iter().map(|s| s.to_string()).collect()
}

fn printed(text: &str) -> Output {
    Output { success: true, stdout: text.as_bytes().to_vec(), stderr: Vec::new() }
}

#[test]
fn default_options() {
    let opt = Opt::default();
    assert_eq!(opt.thread, 8);
    assert_eq!(opt.output, "tags");
    assert_eq!(opt.dir, ".");
    assert_eq!(opt.bin_ctags, "ctags");
    assert_eq!(opt.bin_git, "git");
    assert!(opt.opt_ctags.is_empty() && opt.exclude.is_empty());
    assert!(!opt.unsorted && !opt.validate_utf8 && !opt.config);
    assert_eq!(opt.completion, None);
}

#[test]
fn shards_go_round_robin() {
    let opt = with_threads(2);
    let files = git_files(&opt, &strings(&["a.rs", "b.rs", "c.rs"]));
    assert_eq!(files, vec!["a.rs\nc.rs\n", "b.rs\n"]);
}

#[test]
fn shards_of_an_empty_list_are_empty() {
    let opt = with_threads(3);
    let files = git_files(&opt, &[]);
    assert_eq!(files, vec!["", "", ""]);
}

#[test]
fn shards_hold_every_path_once() {
    let list: Vec<String> = (0..23).map(|i| format!("f{:02}", i)).collect();
    for n in 1..7 {
        let files = git_files(&with_threads(n), &list);
        assert_eq!(files.len(), n);
        let mut all: Vec<String> = Vec::new();
        for (i, shard) in files.iter().enumerate() {
            let paths: Vec<&str> = shard.lines().collect();
            for (k, p) in paths.iter().enumerate() {
                assert_eq!(*p, list[i + k * n]);
            }
            all.extend(paths.iter().map(|p| p.to_string()));
        }
        all.sort();
        assert_eq!(all, list);
    }
}

#[test]
fn sorted_mode_interleaves() {
    let opt = with_threads(2);
    let outputs = vec![printed("A\t1\nC\t3\n"), printed("B\t2\n")];
    let bytes = write_tags(&opt, "", &outputs).unwrap();
    assert_eq!(bytes, b"A\t1\nB\t2\nC\t3\n");
}

#[test]
fn unsorted_mode_concatenates() {
    let mut opt = with_threads(2);
    opt.unsorted = true;
    let outputs = vec![printed("A\t1\nC\t3\n"), printed("B\t2\n")];
    let bytes = write_tags(&opt, "", &outputs).unwrap();
    assert_eq!(bytes, b"A\t1\nC\t3\nB\t2\n");
}

#[test]
fn header_comes_first_as_it_is() {
    let opt = with_threads(1);
    let bytes = write_tags(&opt, "!_TAG\t1\n", &[printed("x\ny")]).unwrap();
    assert_eq!(bytes, b"!_TAG\t1\nx\ny\n");
    let none = write_tags(&opt, "head", &[]).unwrap();
    assert_eq!(none, b"head");
}

#[test]
fn equal_lines_come_from_the_lower_shard_first() {
    let a: Vec<&[u8]> = vec![b"k", b"m"];
    let b: Vec<&[u8]> = vec![b"k", b"l"];
    let out = merge_lines(&vec![a, b]);
    assert_eq!(out, vec![&b"k"[..], b"k", b"l", b"m"]);
}

#[test]
fn unsorted_inputs_are_merged_piece_by_piece() {
    let a: Vec<&[u8]> = vec![b"c", b"a"];
    let b: Vec<&[u8]> = vec![b"b"];
    let lines = vec![a, b];
    assert_eq!(merge_lines(&lines), vec![&b"b"[..], b"c", b"a"]);
    assert_eq!(concat_lines(&lines), vec![&b"c"[..], b"a", b"b"]);
}

#[test]
fn merged_lines_are_sorted_and_complete() {
    let texts = ["a\nd\ng\n", "b\nb\nh\n", "", "c\ne\nf\nz\n"];
    let lines: Vec<Vec<&[u8]>> = texts.iter().map(|t| lines_of(t.as_bytes())).collect();
    let out = merge_lines(&lines);
    for w in out.windows(2) {
        assert!(w[0] <= w[1]);
    }
    let mut all: Vec<&[u8]> = lines.iter().flatten().cloned().collect();
    assert_eq!(out.len(), all.len());
    let mut flat = concat_lines(&lines);
    assert_eq!(flat, all);
    all.sort();
    flat.sort();
    assert_eq!(out, all);
    assert_eq!(flat, all);
}

#[test]
fn lines_end_at_line_feeds() {
    assert_eq!(lines_of(b""), Vec::<&[u8]>::new());
    assert_eq!(lines_of(b"a"), vec![b"a"]);
    assert_eq!(lines_of(b"a\n"), vec![b"a"]);
    assert_eq!(lines_of(b"a\n\nb"), vec![&b"a"[..], b"", b"b"]);
    assert_eq!(lines_of(b"a\r\nb\r"), vec![&b"a"[..], b"b\r"]);
    assert_eq!(lines_of(b"\n"), vec![b""]);
    assert_eq!(lines_of(b"a\xff\nb"), vec![&b"a\xff"[..], b"b"]);
}

#[test]
fn lines_compare_byte_by_byte() {
    assert!(line_less(b"a", b"b"));
    assert!(line_less(b"", b"a"));
    assert!(line_less(b"ab", b"abc"));
    assert!(!line_less(b"abc", b"ab"));
    assert!(!line_less(b"a", b"a"));
    assert!(line_less(b"Z", b"a"));
    assert!(line_less(b"a", b"\xc3\xa9"));
}

#[test]
fn sorting_orders_lines() {
    let v: Vec<&[u8]> = vec![b"b", b"a", b"c", b"a", b""];
    assert_eq!(sort_lines(&v), vec![&b""[..], b"a", b"a", b"b", b"c"]);
    assert_eq!(sort_lines(&[]), Vec::<&[u8]>::new());
}

#[test]
fn validation_names_the_first_bad_worker() {
    let mut opt = with_threads(3);
    let bad = |b: &[u8]| Output { success: true, stdout: b.to_vec(), stderr: Vec::new() };
    let outputs = vec![printed("a\n"), bad(b"b\xff\n"), bad(b"\xfe")];
    assert_eq!(write_tags(&opt, "", &outputs).unwrap(), b"a\nb\xff\n\xfe\n");
    opt.validate_utf8 = true;
    let err = write_tags(&opt, "", &outputs).unwrap_err();
    assert_eq!(err, Error::Decoding { worker: 1 });
    assert_eq!(err.message(), "failed to convert to UTF-8 (output of worker 1)");
    assert_eq!(find_undecodable(&outputs), Some(1));
    assert_eq!(find_undecodable(&outputs[..1]), None);
}

#[test]
fn worker_arguments() {
    let mut opt = Opt::default();
    assert_eq!(CmdCtags::get_args(&opt), vec!["-L -", "-f -"]);
    opt.unsorted = true;
    opt.exclude = strings(&["*.md", "target"]);
    opt.opt_ctags = strings(&["--fields=+n"]);
    assert_eq!(
        CmdCtags::get_args(&opt),
        vec!["-L -", "-f -", "--sort=no", "--exclude=*.md", "--exclude=target", "--fields=+n"]
    );
    assert_eq!(
        CmdCtags::get_cmd(&opt, &CmdCtags::get_args(&opt)),
        "cd .; ctags -L - -f - --sort=no --exclude=*.md --exclude=target --fields=+n"
    );
    assert_eq!(CmdCtags::get_cmd(&opt, &[]), "cd .; ctags");
    assert_eq!(
        CmdCtags::get_header_args(&opt, "a", "b"),
        vec!["-L a", "-f b", "--fields=+n"]
    );
}

#[test]
fn pipe_sizes() {
    assert_eq!(CmdCtags::pipe_size(0), 0);
    assert_eq!(CmdCtags::pipe_size(4096), 4096);
    assert_eq!(CmdCtags::pipe_size(1048576), 1048576);
    assert_eq!(CmdCtags::pipe_size(1048577), 1048576);
    assert_eq!(CmdCtags::pipe_size(2147483647), 1048576);
}

#[test]
fn first_failed_worker_decides() {
    let opt = Opt::default();
    let failed = |e: &[u8]| {
        WorkerResult::Exited(Output { success: false, stdout: b"x\n".to_vec(), stderr: e.to_vec() })
    };
    let fine = || WorkerResult::Exited(printed("t\n"));
    assert_eq!(CmdCtags::call(&opt, vec![]), Ok(vec![]));
    assert_eq!(
        CmdCtags::call(&opt, vec![fine(), fine()]),
        Ok(vec![printed("t\n"), printed("t\n")])
    );
    assert_eq!(
        CmdCtags::call(&opt, vec![fine(), failed(b"boom"), WorkerResult::NotStarted]),
        Err(CtagsError::ExecFailed { cmd: "cd .; ctags -L - -f -".to_string(), err: "boom".to_string() })
    );
    assert_eq!(
        CmdCtags::call(&opt, vec![WorkerResult::NotStarted, failed(b"boom")]),
        Err(CtagsError::CallFailed { cmd: "cd .; ctags -L - -f -".to_string() })
    );
    assert_eq!(
        CmdCtags::call(&opt, vec![failed(b"\xff\x00"), fine()]),
        Err(CtagsError::ConvFailed { s: vec![255, 0] })
    );
    assert_eq!(
        CmdCtags::call(&opt, vec![WorkerResult::Lost { msg: "broken pipe".to_string() }]),
        Err(CtagsError::Io { msg: "broken pipe".to_string() })
    );
}

#[test]
fn error_texts() {
    let exec = CtagsError::ExecFailed { cmd: "c".to_string(), err: "e".to_string() };
    assert_eq!(exec.message(), "failed to execute ctags command (c)\ne");
    let conv = CtagsError::ConvFailed { s: vec![0, 7, 10, 99, 100, 255] };
    assert_eq!(conv.message(), "failed to convert to UTF-8 ([0, 7, 10, 99, 100, 255])");
    assert_eq!(
        CtagsError::ConvFailed { s: vec![] }.message(),
        format!("failed to convert to UTF-8 ({:?})", Vec::<u8>::new())
    );
    assert_eq!(CtagsError::Io { msg: "m".to_string() }.message(), "m");
    let exec = GitError::ExecFailed { cmd: "c".to_string(), err: "e".to_string() };
    assert_eq!(exec.message(), "failed to execute git command (c)\ne");
    let conv = GitError::ConvFailed { s: vec![200] };
    assert_eq!(conv.message(), format!("failed to convert to UTF-8 ({:?})", vec![200u8]));
    assert_eq!(Error::Files(conv).message(), "failed to convert to UTF-8 ([200])");
    assert_eq!(Error::Unexpected.message(), "unexpected event");
}

#[test]
fn header_is_what_the_probe_wrote() {
    assert_eq!(CmdCtags::get_tags_header(b"!_TAG\n"), Ok("!_TAG\n".to_string()));
    assert_eq!(CmdCtags::get_tags_header(b""), Ok(String::new()));
    assert_eq!(
        CmdCtags::get_tags_header(b"\xc3"),
        Err(CtagsError::ConvFailed { s: vec![0xc3] })
    );
}

#[test]
fn exuberant_ctags_is_told_by_its_name() {
    assert_eq!(CmdCtags::is_exuberant_ctags(b"Exuberant Ctags 5.8"), Ok(true));
    assert_eq!(CmdCtags::is_exuberant_ctags(b"Universal Ctags"), Ok(false));
    assert_eq!(CmdCtags::is_exuberant_ctags(b"Exuberant"), Ok(false));
    assert_eq!(
        CmdCtags::is_exuberant_ctags(b"Exuberant Ctags \xff"),
        Err(CtagsError::ConvFailed { s: b"Exuberant Ctags \xff".to_vec() })
    );
}

#[test]
fn bytes_decode_as_utf8_only() {
    assert_eq!(decode("h\u{e9}llo \u{1F600}".as_bytes()), Some("h\u{e9}llo \u{1F600}".to_string()));
    assert_eq!(decode(b"\xed\xa0\x80"), None);
    assert_eq!(decode(b"\xc0\x80"), None);
    assert!(same_text("zsh", "zsh"));
    assert!(!same_text("zsh", "zs"));
}

#[test]
fn git_arguments() {
    let mut opt = Opt::default();
    assert_eq!(CmdGit::get_ls_files_args(&opt), vec!["ls-files", "--cached", "--exclude-standard"]);
    opt.include_untracked = true;
    opt.opt_git = strings(&["-x"]);
    assert_eq!(
        CmdGit::get_ls_files_args(&opt),
        vec!["ls-files", "--cached", "--exclude-standard", "--other", "-x"]
    );
    opt.include_submodule = true;
    assert_eq!(
        CmdGit::get_ls_files_args(&opt),
        vec!["ls-files", "--cached", "--exclude-standard", "--recurse-submodules", "-x"]
    );
    opt.opt_git_lfs = strings(&["-l"]);
    assert_eq!(CmdGit::get_lfs_args(&opt), vec!["lfs", "ls-files", "-l"]);
    assert_eq!(CmdGit::get_cdup_args(), vec!["rev-parse", "--show-cdup"]);
    assert_eq!(CmdGit::get_prefix_args(), vec!["rev-parse", "--show-prefix"]);
    opt.dir = "sub dir".to_string();
    assert_eq!(CmdGit::get_cmd(&opt, &strings(&["a", "b c"])), "cd sub dir; git a b c");
}

#[test]
fn git_runs_are_judged() {
    let opt = Opt::default();
    let args = strings(&["x"]);
    assert_eq!(CmdGit::call(&opt, &args, Ok(printed("o"))), Ok(printed("o")));
    assert_eq!(
        CmdGit::call(&opt, &args, Err("gone".to_string())),
        Err(GitError::CallFailed { cmd: "cd .; git x".to_string(), cause: "gone".to_string() })
    );
    let failed = |e: &[u8]| Output { success: false, stdout: Vec::new(), stderr: e.to_vec() };
    assert_eq!(
        CmdGit::call(&opt, &args, Ok(failed(b"fatal"))),
        Err(GitError::ExecFailed { cmd: "cd .; git x".to_string(), err: "fatal".to_string() })
    );
    assert_eq!(
        CmdGit::call(&opt, &args, Ok(failed(b"\x80"))),
        Err(GitError::ConvFailed { s: vec![0x80] })
    );
    let bad = Output { success: true, stdout: vec![b'a', 0xff], stderr: Vec::new() };
    assert_eq!(
        CmdGit::ls_files(&opt, Ok(bad.clone())),
        Err(GitError::ConvFailed { s: vec![b'a', 0xff] })
    );
    assert_eq!(
        CmdGit::lfs_ls_files(&bad, "", ""),
        Err(GitError::ConvFailed { s: vec![b'a', 0xff] })
    );
}

#[test]
fn ways_are_first_lines() {
    let opt = Opt::default();
    assert_eq!(CmdGit::show_cdup(&opt, Ok(printed("../../\nrest\n"))), Ok("../../".to_string()));
    assert_eq!(CmdGit::show_cdup(&opt, Ok(printed(""))), Ok(String::new()));
    assert_eq!(CmdGit::show_prefix(&opt, Ok(printed("src/\n"))), Ok("src/".to_string()));
    assert_eq!(CmdGit::show_prefix(&opt, Ok(printed("\n"))), Ok(String::new()));
}

#[test]
fn file_list_is_sorted_by_bytes() {
    let opt = Opt::default();
    let list = CmdGit::ls_files(&opt, Ok(printed("b\n\u{e9}\nZ\na\n"))).unwrap();
    assert_eq!(list, vec!["Z", "a", "b", "\u{e9}"]);
    assert_eq!(CmdGit::ls_files(&opt, Ok(printed(""))), Ok(vec![]));
}

#[test]
fn lfs_paths_are_seen_from_the_searched_directory() {
    let listing = printed("aa * src/x.bin\nbb - doc/y.bin\ncc * src/sub/src/z.bin\nshort line\n\n");
    let list = CmdGit::lfs_ls_files(&listing, "../", "src/").unwrap();
    assert_eq!(list, vec!["../", "../", "../doc/y.bin", "sub/z.bin", "x.bin"]);
    let top = CmdGit::lfs_ls_files(&printed("aa * b\naa * a\n"), "", "").unwrap();
    assert_eq!(top, vec!["a", "b"]);
}

#[test]
fn lfs_files_leave_the_list() {
    let mut opt = Opt::default();
    let list = strings(&["a", "b", "c", "b"]);
    let lfs = strings(&["b", "x"]);
    assert_eq!(CmdGit::get_files(&opt, list.clone(), &lfs), list);
    opt.exclude_lfs = true;
    assert_eq!(CmdGit::get_files(&opt, list.clone(), &lfs), vec!["a", "c"]);
    assert_eq!(CmdGit::keep(list.clone(), &[]), list);
}

#[test]
fn fields_and_prefixes() {
    assert_eq!(field_of(b"a b c d", 2), b"c");
    assert_eq!(field_of(b"a b", 2), b"");
    assert_eq!(field_of(b"a  b", 2), b"b");
    assert_eq!(field_of(b"", 0), b"");
    assert_eq!(field_of(b"a b ", 2), b"");
    assert!(starts_with(b"src/a", b"src/"));
    assert!(starts_with(b"src/a", b""));
    assert!(!starts_with(b"sr", b"src/"));
    assert_eq!(without_all(b"src/a/src/b", b"src/"), b"a/b");
    assert_eq!(without_all(b"aaa", b"aa"), b"a");
    assert_eq!(without_all(b"abc", b""), b"abc");
    assert_eq!(without_all(b"abab", b"ab"), b"");
}

#[test]
fn shells_and_sinks() {
    assert_eq!(shell_of("bash"), Shell::Bash);
    assert_eq!(shell_of("fish"), Shell::Fish);
    assert_eq!(shell_of("zsh"), Shell::Zsh);
    assert_eq!(shell_of("powershell"), Shell::PowerShell);
    assert_eq!(shell_of("tcsh"), Shell::Bash);
    let mut opt = Opt::default();
    assert_eq!(sink_of(&opt), Sink::File { path: "tags".to_string() });
    opt.output = "-".to_string();
    assert_eq!(sink_of(&opt), Sink::Stdout);
}

#[test]
fn failed_worker_ends_the_run_before_any_sink() {
    let opt = with_threads(2);
    let results = vec![
        WorkerResult::Exited(printed("a\n")),
        WorkerResult::Exited(Output { success: false, stdout: Vec::new(), stderr: b"no".to_vec() }),
    ];
    let (state, action) = step(&opt, State::Tagging, Event::Workers(results));
    assert_eq!(state, State::Done);
    assert_eq!(
        action,
        Action::Fail(Error::Tags(CtagsError::ExecFailed {
            cmd: "cd .; ctags -L - -f -".to_string(),
            err: "no".to_string(),
        }))
    );
}

#[test]
fn run_with_lfs_asks_git_four_times() {
    let mut opt = with_threads(2);
    opt.exclude_lfs = true;
    opt.output = "-".to_string();
    let (state, action) = step(&opt, State::Start, Event::Begin);
    assert_eq!(action, Action::RunGit { args: strings(&["ls-files", "--cached", "--exclude-standard"]) });
    let (state, action) = step(&opt, state, Event::Git(Ok(printed("c\na\nb\n"))));
    assert_eq!(action, Action::RunGit { args: strings(&["lfs", "ls-files"]) });
    let (state, action) = step(&opt, state, Event::Git(Ok(printed("aa * b\n"))));
    assert_eq!(action, Action::RunGit { args: strings(&["rev-parse", "--show-cdup"]) });
    let (state, action) = step(&opt, state, Event::Git(Ok(printed("\n"))));
    assert_eq!(action, Action::RunGit { args: strings(&["rev-parse", "--show-prefix"]) });
    let (state, action) = step(&opt, state, Event::Git(Ok(printed("\n"))));
    assert_eq!(
        action,
        Action::RunCtags { args: strings(&["-L -", "-f -"]), files: strings(&["a\n", "c\n"]) }
    );
    let workers = vec![WorkerResult::Exited(printed("A\n")), WorkerResult::Exited(printed("C\n"))];
    let (state, action) = step(&opt, state, Event::Workers(workers));
    assert_eq!(action, Action::ProbeHeader);
    let (state, action) = step(&opt, state, Event::Header(b"H\n".to_vec()));
    assert_eq!(action, Action::Write { sink: Sink::Stdout, bytes: b"H\nA\nC\n".to_vec() });
    assert_eq!(state, State::Done);
    let (state, action) = step(&opt, state, Event::Begin);
    assert_eq!((state, action), (State::Done, Action::Fail(Error::Unexpected)));
}

#[test]
fn run_stops_at_bad_header_or_bad_stream() {
    let mut opt = with_threads(1);
    let heading = || State::Heading { outputs: vec![printed("a\n")] };
    let (_, action) = step(&opt, heading(), Event::Header(vec![0xff]));
    assert_eq!(action, Action::Fail(Error::Tags(CtagsError::ConvFailed { s: vec![0xff] })));
    let (_, action) = step(&opt, heading(), Event::HeaderUnread { msg: "gone".to_string() });
    assert_eq!(action, Action::Fail(Error::Tags(CtagsError::Io { msg: "gone".to_string() })));
    opt.validate_utf8 = true;
    let bad = WorkerResult::Exited(Output { success: true, stdout: vec![0xff], stderr: Vec::new() });
    let (state, action) = step(&opt, State::Tagging, Event::Workers(vec![bad]));
    assert_eq!((state, action), (State::Done, Action::Fail(Error::Decoding { worker: 0 })));
}

#[test]
fn same_inputs_give_the_same_bytes() {
    let opt = with_threads(2);
    let outputs = vec![printed("b\nd\n"), printed("a\nc\n")];
    let first = write_tags(&opt, "h\n", &outputs).unwrap();
    let second = write_tags(&opt, "h\n", &outputs).unwrap();
    assert_eq!(first, second);
    assert_eq!(first, b"h\na\nb\nc\nd\n");
}
