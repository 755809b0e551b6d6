//! The ways a request through the build pipeline can fail.
use vstd::prelude::*;

verus! {

/// A failed pipeline step.
#[derive(PartialEq, Eq, Structural, Clone, Copy, Debug)]
pub enum Error {
    /// The first clone of a repository mirror exited with failure.
    CloneFailed,
    /// Fetching into an existing mirror exited with failure.
    FetchFailed,
    /// Exporting the source archive of a commit exited with failure.
    ArchiveFailed,
    /// The build tool exited with failure.
    BuildFailed,
    /// The closure query exited with failure or gave malformed output.
    QueryFailed,
    /// No repository is configured under the requested lookup key.
    UnknownRepoKey,
    /// The mirror holds no commit of the requested name.
    CommitNotFound,
}

impl Error {
    /// Whether the client caused the failure, as opposed to the build or
    /// the infrastructure.
    pub fn is_client_error(&self) -> (r: bool)
        ensures
            r <==> (*self == Error::UnknownRepoKey || *self == Error::CommitNotFound),
    {
        match self {
            Error::UnknownRepoKey | Error::CommitNotFound => true,
            _ => false,
        }
    }

    /// The reason given for each kind.
    pub open spec fn reason_text(&self) -> Seq<char> {
        match self {
            Error::CloneFailed => "git clone failed"@,
            Error::FetchFailed => "git fetch failed"@,
            Error::ArchiveFailed => "git archive failed"@,
            Error::BuildFailed => "build failed"@,
            Error::QueryFailed => "closure query failed"@,
            Error::UnknownRepoKey => "unknown repository key"@,
            Error::CommitNotFound => "commit not found"@,
        }
    }

    /// A short plain-text reason, one of its own for each kind.
    pub fn reason(&self) -> (r: &'static str)
        ensures
            r@ == self.reason_text(),
            r@.len() > 0,
    {
        match self {
            Error::CloneFailed => {
                proof {
                    reveal_strlit("git clone failed");
                }
                "git clone failed"
            },
            Error::FetchFailed => {
                proof {
                    reveal_strlit("git fetch failed");
                }
                "git fetch failed"
            },
            Error::ArchiveFailed => {
                proof {
                    reveal_strlit("git archive failed");
                }
                "git archive failed"
            },
            Error::BuildFailed => {
                proof {
                    reveal_strlit("build failed");
                }
                "build failed"
            },
            Error::QueryFailed => {
                proof {
                    reveal_strlit("closure query failed");
                }
                "closure query failed"
            },
            Error::UnknownRepoKey => {
                proof {
                    reveal_strlit("unknown repository key");
                }
                "unknown repository key"
            },
            Error::CommitNotFound => {
                proof {
                    reveal_strlit("commit not found");
                }
                "commit not found"
            },
        }
    }
}

} // verus!
