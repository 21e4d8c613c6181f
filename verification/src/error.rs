use crate::text::{join, join_names, names};
use vstd::prelude::*;

verus! {

/// A signal to a running process of a target.
#[derive(Clone, Copy, Debug, PartialEq, Eq, Structural)]
pub enum RunSignal {
    Kill,
}

impl RunSignal {
    /// The text of the signal.
    pub open spec fn text(&self) -> Seq<char> {
        match self {
            RunSignal::Kill => "KILL"@,
        }
    }

    /// The signal as shown to the user.
    pub fn message(&self) -> (message: String)
        ensures
            message@ == self.text(),
    {
        match self {
            RunSignal::Kill => "KILL".to_owned(),
        }
    }
}

/// What is wrong with the dependencies of a set of targets.
#[derive(Debug)]
pub enum SanityCheckError<'a> {
    /// A target depends on this name, which no target has.
    DependencyNotFound(&'a str),
    /// These targets depend on one another in a circle.
    DependencyLoop(Vec<&'a str>),
}

/// A fault in the dependencies of a set of targets, with its texts as sequences of characters.
pub enum SanityFault {
    DependencyNotFound(Seq<char>),
    DependencyLoop(Seq<Seq<char>>),
}

impl<'a> View for SanityCheckError<'a> {
    type V = SanityFault;

    open spec fn view(&self) -> SanityFault {
        match self {
            SanityCheckError::DependencyNotFound(dependency) => SanityFault::DependencyNotFound(
                dependency@,
            ),
            SanityCheckError::DependencyLoop(dependencies) => SanityFault::DependencyLoop(
                names(dependencies@),
            ),
        }
    }
}

impl<'a> SanityCheckError<'a> {
    /// The text of the error.
    pub open spec fn text(&self) -> Seq<char> {
        match self {
            SanityCheckError::DependencyNotFound(dependency) => "Dependency "@ + dependency@
                + " not found."@,
            SanityCheckError::DependencyLoop(dependencies) => "Dependency loop: ["@ + join(
                names(dependencies@),
                ", "@,
            ) + "]"@,
        }
    }

    /// The error as shown to the user.
    pub fn message(&self) -> (message: String)
        ensures
            message@ == self.text(),
    {
        match self {
            SanityCheckError::DependencyNotFound(dependency) => {
                let mut message = "Dependency ".to_owned();
                message.append(dependency);
                message.append(" not found.");
                message
            },
            SanityCheckError::DependencyLoop(dependencies) => {
                let mut message = "Dependency loop: [".to_owned();
                message.append(join_names(dependencies, ", ").as_str());
                message.append("]");
                message
            },
        }
    }
}

/// What ends the build loop. Errors of channels, of the file watcher and of the operating system
/// are held by their texts.
#[derive(Debug)]
pub enum BuildLoopError<'a> {
    /// The build of this target failed.
    BuildFailed(&'a str),
    /// The scope of the build threads broke down.
    UnspecifiedChannelError,
    /// This signal could not be sent to a running process.
    SendError(RunSignal),
    /// A channel could not be read.
    RecvError(String),
    /// The file watcher could not be set up.
    WatcherSetupError(String),
    /// This path could not be watched.
    WatcherPathError(&'a str, String),
    /// The current directory could not be found out.
    CwdIOError(String),
    /// The current directory is no valid text.
    CwdUtf8Error,
}

/// An error of the build loop, with its texts as sequences of characters.
pub enum LoopFault {
    BuildFailed(Seq<char>),
    UnspecifiedChannelError,
    SendError(RunSignal),
    RecvError(Seq<char>),
    WatcherSetupError(Seq<char>),
    WatcherPathError(Seq<char>, Seq<char>),
    CwdIOError(Seq<char>),
    CwdUtf8Error,
}

impl<'a> View for BuildLoopError<'a> {
    type V = LoopFault;

    open spec fn view(&self) -> LoopFault {
        match self {
            BuildLoopError::BuildFailed(target) => LoopFault::BuildFailed(target@),
            BuildLoopError::UnspecifiedChannelError => LoopFault::UnspecifiedChannelError,
            BuildLoopError::SendError(signal) => LoopFault::SendError(*signal),
            BuildLoopError::RecvError(error) => LoopFault::RecvError(error@),
            BuildLoopError::WatcherSetupError(error) => LoopFault::WatcherSetupError(error@),
            BuildLoopError::WatcherPathError(path, error) => LoopFault::WatcherPathError(
                path@,
                error@,
            ),
            BuildLoopError::CwdIOError(error) => LoopFault::CwdIOError(error@),
            BuildLoopError::CwdUtf8Error => LoopFault::CwdUtf8Error,
        }
    }
}

impl<'a> BuildLoopError<'a> {
    /// The text of the error.
    pub open spec fn text(&self) -> Seq<char> {
        match self {
            BuildLoopError::BuildFailed(target) => "Build failed for target "@ + target@,
            BuildLoopError::UnspecifiedChannelError => "Unknown channel parllelism failure"@,
            BuildLoopError::SendError(signal) => "Failed to send run signal '"@ + signal.text()
                + "' to running process"@,
            BuildLoopError::RecvError(error) => "Channel receive failure: "@ + error@,
            BuildLoopError::WatcherSetupError(error) => "Watcher setup error: "@ + error@,
            BuildLoopError::WatcherPathError(path, error) => "File watch error: "@ + path@
                + ": "@ + error@,
            BuildLoopError::CwdIOError(error) => "IO Error while getting current directory: "@
                + error@,
            BuildLoopError::CwdUtf8Error => "Current directory was not valid utf-8"@,
        }
    }

    /// The error as shown to the user.
    pub fn message(&self) -> (message: String)
        ensures
            message@ == self.text(),
    {
        match self {
            BuildLoopError::BuildFailed(target) => "Build failed for target ".to_owned().concat(
                target,
            ),
            BuildLoopError::UnspecifiedChannelError => {
                "Unknown channel parllelism failure".to_owned()
            },
            BuildLoopError::SendError(signal) => {
                let mut message = "Failed to send run signal '".to_owned();
                message.append(signal.message().as_str());
                message.append("' to running process");
                message
            },
            BuildLoopError::RecvError(error) => "Channel receive failure: ".to_owned().concat(
                error.as_str(),
            ),
            BuildLoopError::WatcherSetupError(error) => "Watcher setup error: ".to_owned().concat(
                error.as_str(),
            ),
            BuildLoopError::WatcherPathError(path, error) => {
                let mut message = "File watch error: ".to_owned();
                message.append(path);
                message.append(": ");
                message.append(error.as_str());
                message
            },
            BuildLoopError::CwdIOError(
                error,
            ) => "IO Error while getting current directory: ".to_owned().concat(error.as_str()),
            BuildLoopError::CwdUtf8Error => "Current directory was not valid utf-8".to_owned(),
        }
    }
}

} // verus!
