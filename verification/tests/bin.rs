use ptagslib::bin::{Error, Opt};
use ptagslib::cmd_ctags::WorkerResult;
use ptagslib::cmd_git::GitError;
use ptagslib::output::Output;
use ptagslib::run::{step, Action, Event, Shell, Sink, State};

/// Reads the options off a command line, as far as these tests use them.
fn opt_from(args: &[&str]) -> Opt {
    let mut opt = Opt::default();
    let mut i = 1;
    while i < args.len() {
        let a = args[i];
        if a == "--bin-git" {
            i += 1;
            opt.bin_git = args[i].to_string();
        } else if a == "--completion" {
            i += 1;
            opt.completion = Some(args[i].to_string());
        } else if a == "-s" {
            opt.stat = true;
        } else if a == "-v" {
            opt.verbose = true;
        } else if a == "--validate-utf8" {
            opt.validate_utf8 = true;
        } else if a == "--unsorted" {
            opt.unsorted = true;
        } else if a == "--config" {
            opt.config = true;
        }
        i += 1;
    }
    opt
}

/// Drives a run to its end with stand-ins for the outside tools, and hands
/// back what the run asks for last.
fn drive(opt: &Opt) -> Action {
    let mut state = State::Start;
    let mut event = Event::Begin;
    loop {
        let (next, action) = step(opt, state, event);
        state = next;
        event = match action {
            Action::RunGit { args } => Event::Git(if opt.bin_git != "git" {
                Err(format!("{:?}", std::io::Error::from_raw_os_error(2)))
            } else if args[0] == "ls-files" {
                Ok(Output {
                    success: true,
                    stdout: b"src/lib.rs\nMakefile\nsrc/bin.rs\n".to_vec(),
                    stderr: Vec::new(),
                })
            } else {
                Err("unknown command".to_string())
            }),
            Action::RunCtags { args, files } => {
                let sorted = !args.iter().any(|a| a == "--sort=no");
                Event::Workers(
                    files
                        .iter()
                        .map(|shard| {
                            let mut tags: Vec<String> =
                                shard.lines().map(|f| format!("{}\t{}\t1", f, f)).collect();
                            if sorted {
                                tags.sort();
                            }
                            let stdout = tags.iter().map(|t| format!("{}\n", t)).collect::<String>();
                            WorkerResult::Exited(Output {
                                success: true,
                                stdout: stdout.into_bytes(),
                                stderr: Vec::new(),
                            })
                        })
                        .collect(),
                )
            }
            Action::ProbeHeader => Event::Header(b"!_TAG_FILE_SORTED\t1\t//\n".to_vec()),
            last => {
                assert_eq!(state, State::Done);
                return last;
            }
        };
    }
}

/// What a run comes to: nothing to report, or the error that ended it.
fn run_opt(opt: &Opt) -> Result<(), Error> {
    match drive(opt) {
        Action::Fail(e) => Err(e),
        _ => Ok(()),
    }
}

#[test]
fn test_run() {
    let args = vec!["ptags"];
    let opt = opt_from(&args);
    let ret = run_opt(&opt);
    assert!(ret.is_ok());
    assert_eq!(
        drive(&opt),
        Action::Write {
            sink: Sink::File { path: "tags".to_string() },
            bytes: b"!_TAG_FILE_SORTED\t1\t//\nMakefile\tMakefile\t1\nsrc/bin.rs\tsrc/bin.rs\t1\nsrc/lib.rs\tsrc/lib.rs\t1\n".to_vec(),
        }
    );
}

#[test]
fn test_run_opt() {
    let args = vec!["ptags", "-s", "-v", "--validate-utf8", "--unsorted"];
    let opt = opt_from(&args);
    let ret = run_opt(&opt);
    assert!(ret.is_ok());
}

#[test]
fn test_run_fail() {
    let args = vec!["ptags", "--bin-git", "aaa"];
    let opt = opt_from(&args);
    let ret = run_opt(&opt);
    let shown = match &ret {
        Err(Error::Files(GitError::CallFailed { cause, .. })) => format!("Err({})", cause),
        other => format!("{:?}", other),
    };
    assert_eq!(&shown[0..42], "Err(Os { code: 2, kind: NotFound, message:");
}

#[test]
fn test_run_completion() {
    let args = vec!["ptags", "--completion", "bash"];
    let opt = opt_from(&args);
    let ret = run_opt(&opt);
    assert!(ret.is_ok());
    assert_eq!(drive(&opt), Action::Complete(Shell::Bash));
    let args = vec!["ptags", "--completion", "fish"];
    let opt = opt_from(&args);
    let ret = run_opt(&opt);
    assert!(ret.is_ok());
    assert_eq!(drive(&opt), Action::Complete(Shell::Fish));
    let args = vec!["ptags", "--completion", "zsh"];
    let opt = opt_from(&args);
    let ret = run_opt(&opt);
    assert!(ret.is_ok());
    assert_eq!(drive(&opt), Action::Complete(Shell::Zsh));
    let args = vec!["ptags", "--completion", "powershell"];
    let opt = opt_from(&args);
    let ret = run_opt(&opt);
    assert!(ret.is_ok());
    assert_eq!(drive(&opt), Action::Complete(Shell::PowerShell));
}

#[test]
fn test_run_config() {
    let args = vec!["ptags", "--config"];
    let opt = opt_from(&args);
    let ret = run_opt(&opt);
    assert!(ret.is_ok());
    assert_eq!(drive(&opt), Action::PrintConfig);
}
