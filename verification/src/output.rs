//! What a finished child process leaves behind.

use vstd::prelude::*;

verus! {

/// The result of one external command that ran to its end.
#[derive(Debug, Clone, PartialEq, Eq)]
pub struct Output {
    /// Whether the command exited with status zero.
    pub success: bool,
    /// Everything the command wrote to its standard output.
    pub stdout: Vec<u8>,
    /// Everything the command wrote to its standard error.
    pub stderr: Vec<u8>,
}

/// The mathematical content of an [`Output`].
pub struct OutputView {
    pub success: bool,
    pub stdout: Seq<u8>,
    pub stderr: Seq<u8>,
}

impl View for Output {
    type V = OutputView;

    open spec fn view(&self) -> OutputView {
        OutputView { success: self.success, stdout: self.stdout@, stderr: self.stderr@ }
    }
}

impl DeepView for Output {
    type V = OutputView;

    open spec fn deep_view(&self) -> OutputView {
        self@
    }
}

} // verus!
