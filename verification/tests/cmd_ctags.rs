use ptagslib::bin::{git_files, Opt};
use ptagslib::cmd_ctags::{CmdCtags, CtagsError, WorkerResult};
use ptagslib::output::Output;
use std::str;

/// Reads the options off a command line, as far as these tests use them.
fn opt_from(args: &[&str]) -> Opt {
    let mut opt = Opt::default();
    let mut i = 1;
    while i < args.len() {
        let a = args[i];
        if a == "-t" {
            i += 1;
            opt.thread = args[i].parse().unwrap();
        } else if a == "--bin-ctags" {
            i += 1;
            opt.bin_ctags = args[i].to_string();
        } else if let Some(x) = a.strip_prefix("--exclude=") {
            opt.exclude.push(x.to_string());
        } else if let Some(x) = a.strip_prefix("--opt-ctags=") {
            opt.opt_ctags.push(x.to_string());
        } else if a == "-v" {
            opt.verbose = true;
        }
        i += 1;
    }
    opt
}

const FILES: [&str; 4] = ["Makefile", "README.md", "src/cmd_ctags.rs", "src/lib.rs"];

/// The tags of the makefile, in the order of its lines.
const MAKEFILE_TAGS: [&str; 2] = [
    "VERSION\tMakefile\t/^VERSION = $(patsubst \"%\",%, $(word 3, $(shell grep version Cargo.toml)))$/;\"\tm",
    "BIN_NAME\tMakefile\t/^BIN_NAME = ptags$/;\"\tm",
];

const RUST_TAG: &str =
    "CallFailed\tsrc/cmd_ctags.rs\t/^    CallFailed { cmd: String },$/;\"\te\tenum:CtagsError";

fn listed() -> Vec<String> {
    FILES.iter().map(|f| f.to_string()).collect()
}

/// Stands for one worker of a tag tool that knows makefiles and Rust.
fn ctags(opt: &Opt, args: &[String], shard: &str) -> WorkerResult {
    if opt.bin_ctags != "ctags" {
        return WorkerResult::NotStarted;
    }
    if args.iter().any(|a| a == "--u") {
        return WorkerResult::Exited(Output {
            success: false,
            stdout: Vec::new(),
            stderr: b"ctags: unrecognized option '--u'\n".to_vec(),
        });
    }
    let excluded = |f: &str| {
        args.iter().filter_map(|a| a.strip_prefix("--exclude=")).any(|p| {
            p == f || (p.ends_with('*') && f.starts_with(&p[..p.len() - 1]))
        })
    };
    let mut tags: Vec<&str> = Vec::new();
    for f in shard.lines() {
        if excluded(f) {
            continue;
        }
        if f == "Makefile" {
            tags.extend_from_slice(&MAKEFILE_TAGS);
        } else if f == "src/cmd_ctags.rs" {
            tags.push(RUST_TAG);
        }
    }
    if !args.iter().any(|a| a == "-u") {
        tags.sort();
    }
    let stdout = tags.iter().map(|t| format!("{}\n", t)).collect::<String>().into_bytes();
    WorkerResult::Exited(Output { success: true, stdout, stderr: Vec::new() })
}

fn call(opt: &Opt, files: &[String]) -> Result<Vec<Output>, CtagsError> {
    let args = CmdCtags::get_args(opt);
    let results = (0..opt.thread).map(|i| ctags(opt, &args, &files[i])).collect();
    CmdCtags::call(opt, results)
}

fn shown(r: &Result<Vec<Output>, CtagsError>) -> String {
    match r {
        Ok(outputs) => format!("Ok({:?})", outputs),
        Err(e) => format!("Err({})", e.message()),
    }
}

#[test]
fn test_call() {
    let args = vec!["ptags", "-t", "1", "--exclude=README.md"];
    let opt = opt_from(&args);
    let files = git_files(&opt, &listed());
    let outputs = call(&opt, &files).unwrap();
    let mut iter = str::from_utf8(&outputs[0].stdout).unwrap().lines();
    assert_eq!(
        iter.next().unwrap_or(""),
        "BIN_NAME\tMakefile\t/^BIN_NAME = ptags$/;\"\tm"
    );
}

#[test]
fn test_call_with_opt() {
    let args = vec!["ptags", "-t", "1", "--opt-ctags=-u"];
    let opt = opt_from(&args);
    let files = git_files(&opt, &listed());
    let outputs = call(&opt, &files).unwrap();
    let mut iter = str::from_utf8(&outputs[0].stdout).unwrap().lines();
    assert_eq!(
        iter.next().unwrap_or(""),
        "VERSION\tMakefile\t/^VERSION = $(patsubst \"%\",%, $(word 3, $(shell grep version Cargo.toml)))$/;\"\tm"
    );
}

#[test]
fn test_call_exclude() {
    let args = vec![
        "ptags",
        "-t",
        "1",
        "--exclude=Make*",
        "--exclude=README.md",
        "-v",
    ];
    let opt = opt_from(&args);
    let files = git_files(&opt, &listed());
    let outputs = call(&opt, &files).unwrap();
    let mut iter = str::from_utf8(&outputs[0].stdout).unwrap().lines();

    let version = b"Universal Ctags 5.9.0, Copyright (C) 2015 Universal Ctags Team\n";
    if CmdCtags::is_exuberant_ctags(version).unwrap() {
        assert_eq!(iter.next().unwrap_or(""), "");
    } else {
        assert_eq!(
            iter.next().unwrap_or(""),
            "CallFailed\tsrc/cmd_ctags.rs\t/^    CallFailed { cmd: String },$/;\"\te\tenum:CtagsError"
        );
    }
}

#[test]
fn cmd_ctags_test_command_fail() {
    let args = vec!["ptags", "--bin-ctags", "aaa"];
    let opt = opt_from(&args);
    let files = git_files(&opt, &listed());
    let outputs = call(&opt, &files);
    assert_eq!(
        &shown(&outputs),
        "Err(failed to call ctags command (cd .; aaa -L - -f -))"
    );
}

#[test]
fn test_ctags_fail() {
    let args = vec!["ptags", "--opt-ctags=--u"];
    let opt = opt_from(&args);
    let files = git_files(&opt, &listed());
    let outputs = call(&opt, &files);
    assert_eq!(
        &shown(&outputs)[0..60],
        "Err(failed to execute ctags command (cd .; ctags -L - -f - -"
    );
}

#[test]
fn test_get_tags_header() {
    let args = vec!["ptags"];
    let opt = opt_from(&args);
    let probe = CmdCtags::get_header_args(&opt, "/tmp/empty", "/tmp/tags");
    assert_eq!(probe, vec!["-L /tmp/empty", "-f /tmp/tags"]);
    let written = b"!_TAG_FILE_FORMAT\t2\t/extended format; --format=1 will not append ;\" to lines/\n!_TAG_FILE_SORTED\t1\t/0=unsorted, 1=sorted, 2=foldcase/\n";
    let output = CmdCtags::get_tags_header(written).unwrap();
    let output = output.lines().next();
    assert_eq!(&output.unwrap_or("")[0..5], "!_TAG");
}
