//! The command line of an external tool, as it is shown in diagnostics.

use vstd::prelude::*;
use vstd::string::StringExecFns;

verus! {

/// The text `cd <dir>; <bin>` followed by each argument after a single space.
pub open spec fn command_line(dir: Seq<char>, bin: Seq<char>, args: Seq<Seq<char>>) -> Seq<char>
    decreases args.len(),
{
    if args.len() == 0 {
        "cd "@ + dir + "; "@ + bin
    } else {
        command_line(dir, bin, args.drop_last()) + " "@ + args.last()
    }
}

/// Writes out the command line of `bin`, run in `dir` with `args`.
pub fn show_command(dir: &str, bin: &str, args: &[String]) -> (cmd: String)
    ensures
        cmd@ == command_line(dir@, bin@, args.deep_view()),
{
    let mut cmd = "cd ".to_owned();
    cmd.append(dir);
    cmd.append("; ");
    cmd.append(bin);
    let mut i: usize = 0;
    while i < args.len()
        invariant
            i <= args.len(),
            cmd@ == command_line(dir@, bin@, args.deep_view().take(i as int)),
        decreases args.len() - i,
    {
        proof {
            let next = args.deep_view().take(i + 1);
            assert(next.drop_last() =~= args.deep_view().take(i as int));
            assert(next.last() == args[i as int]@);
        }
        cmd.append(" ");
        cmd.append(args[i].as_str());
        i += 1;
    }
    proof {
        assert(args.deep_view().take(args.len() as int) =~= args.deep_view());
    }
    cmd
}

} // verus!
