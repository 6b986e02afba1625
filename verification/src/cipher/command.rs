//! How a run of an outside command ended, as the caller that ran it reports
//! it; the `gpg` and `gcloud` backends turn it into their results.
use vstd::prelude::*;

verus! {

/// How a run of an outside command (`gpg`, `gcloud`) ended.
#[derive(Debug)]
pub enum CommandRun {
    /// The command could not be started to report its version.
    Missing,
    /// Starting the command failed, with the system's message.
    SpawnFailed(String),
    /// Writing the input to the command failed, with the system's message.
    WriteFailed(String),
    /// Waiting for the command failed, with the system's message.
    WaitFailed(String),
    /// The command ran to its end: whether it exited successfully, what it
    /// wrote to standard output, and its standard error as text.
    Exited { success: bool, stdout: Vec<u8>, stderr: String },
}

/// What a [`CommandRun`] holds, as plain values.
pub enum RunView {
    Missing,
    SpawnFailed(Seq<char>),
    WriteFailed(Seq<char>),
    WaitFailed(Seq<char>),
    Exited(bool, Seq<u8>, Seq<char>),
}

impl View for CommandRun {
    type V = RunView;

    open spec fn view(&self) -> RunView {
        match self {
            CommandRun::Missing => RunView::Missing,
            CommandRun::SpawnFailed(m) => RunView::SpawnFailed(m@),
            CommandRun::WriteFailed(m) => RunView::WriteFailed(m@),
            CommandRun::WaitFailed(m) => RunView::WaitFailed(m@),
            CommandRun::Exited { success, stdout, stderr } => RunView::Exited(
                *success,
                stdout@,
                stderr@,
            ),
        }
    }
}

/// `prefix` followed by `detail`.
pub fn joined(prefix: &str, detail: &str) -> (m: String)
    ensures
        m@ == prefix@ + detail@,
{
    let mut m = String::from_str(prefix);
    m.append(detail);
    m
}

} // verus!
