//! Classification of what a reachability probe did. The probe itself is an
//! external program; this module only judges what came back from it.

use vstd::prelude::*;

verus! {

/// The two probes: the periodic echo check and the on-demand host scan.
#[derive(Clone, Copy, PartialEq, Eq, Structural, Debug)]
pub enum ProbeKind {
    Ping,
    Scan,
}

/// What running the external probe gave.
#[derive(Clone, Debug, PartialEq, Eq)]
pub enum ProbeRun {
    /// The program ran and ended, with or without success.
    Exited { success: bool, stdout: String, stderr: String },
    /// The program could not be started.
    SpawnFailed { error: String },
}

/// The verdict on one probe of one host.
#[derive(Clone, Debug, PartialEq, Eq)]
pub struct Outcome {
    pub reachable: bool,
    pub detail: String,
}

impl ProbeRun {
    /// A host is reachable exactly when the probe ran and ended with success.
    pub open spec fn succeeded(&self) -> bool {
        match self {
            ProbeRun::Exited { success, .. } => *success,
            ProbeRun::SpawnFailed { .. } => false,
        }
    }

    /// The text that is kept, verbatim, for the operator: the output of a
    /// probe that succeeded; for one that failed, the output of the periodic
    /// check or the error stream of the scan; for one that never started, the
    /// error that said so.
    pub open spec fn diagnostic(&self, kind: ProbeKind) -> Seq<char> {
        match self {
            ProbeRun::Exited { success, stdout, stderr } => if *success || kind == ProbeKind::Ping {
                stdout@
            } else {
                stderr@
            },
            ProbeRun::SpawnFailed { error } => error@,
        }
    }

    /// Whether the probe ran and ended with success.
    pub fn has_succeeded(&self) -> (b: bool)
        ensures
            b == self.succeeded(),
    {
        match self {
            ProbeRun::Exited { success, .. } => *success,
            ProbeRun::SpawnFailed { .. } => false,
        }
    }
}

/// Judges one probe run: reachable on success, unreachable on a failed exit
/// or a failed start, with the raw diagnostic in either case.
pub fn classify(kind: ProbeKind, run: &ProbeRun) -> (outcome: Outcome)
    ensures
        outcome.reachable == run.succeeded(),
        outcome.detail@ == run.diagnostic(kind),
{
    match run {
        ProbeRun::Exited { success, stdout, stderr } => {
            if *success {
                Outcome { reachable: true, detail: stdout.clone() }
            } else {
                match kind {
                    ProbeKind::Ping => Outcome { reachable: false, detail: stdout.clone() },
                    ProbeKind::Scan => Outcome { reachable: false, detail: stderr.clone() },
                }
            }
        },
        ProbeRun::SpawnFailed { error } => Outcome { reachable: false, detail: error.clone() },
    }
}

} // verus!
