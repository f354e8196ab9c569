//! The traversal driver's decisions: what to do with the target, how to
//! react to what happens to each file, and the status with which the run
//! ends.

use vstd::prelude::*;
use vstd::string::*;

verus! {

/// The status of a run that found at least one match.
pub const EXIT_MATCHED: i32 = 0;

/// The status of a run that ended without a match.
pub const EXIT_NO_MATCH: i32 = 1;

/// The status of a run that could not be carried out.
pub const EXIT_FAILURE: i32 = 2;

/// What the target path names.
#[derive(Clone, Copy, Debug, PartialEq, Eq, Structural)]
pub enum PathKind {
    /// A regular file.
    File,
    /// A directory.
    Directory,
    /// Nothing, or something that is neither file nor directory.
    Other,
}

/// What is done with the target.
#[derive(Clone, Copy, Debug, PartialEq, Eq, Structural)]
pub enum Plan {
    /// The target is scanned as the one file of the run.
    ScanFile,
    /// Every regular file beneath the target is scanned.
    WalkTree,
    /// The target is a directory and recursion was not asked for: nothing
    /// is scanned.
    RefuseDirectory,
    /// The target is neither file nor directory: nothing is scanned.
    RejectPath,
}

/// The plan for a target of a given kind.
pub open spec fn plan_of(kind: PathKind, recursive: bool) -> Plan {
    match kind {
        PathKind::File => Plan::ScanFile,
        PathKind::Directory => if recursive {
            Plan::WalkTree
        } else {
            Plan::RefuseDirectory
        },
        PathKind::Other => Plan::RejectPath,
    }
}

/// Decides what to do with the target.
pub fn plan_for(kind: PathKind, recursive: bool) -> (plan: Plan)
    ensures
        plan == plan_of(kind, recursive),
{
    match kind {
        PathKind::File => Plan::ScanFile,
        PathKind::Directory => {
            if recursive {
                Plan::WalkTree
            } else {
                Plan::RefuseDirectory
            }
        },
        PathKind::Other => Plan::RejectPath,
    }
}

/// Tells whether an entry met beneath the target is scanned: regular files
/// are, everything else is passed over.
pub fn is_scanned(kind: PathKind) -> (scanned: bool)
    ensures
        scanned == (kind == PathKind::File),
{
    match kind {
        PathKind::File => true,
        _ => false,
    }
}

/// The diagnostic of a plan under which nothing is scanned.
pub open spec fn refusal_text(plan: Plan, path: Seq<char>) -> Option<Seq<char>> {
    match plan {
        Plan::RefuseDirectory => Some(
            "Path is a directory. Use -r/--recursive to search recursively: "@ + path,
        ),
        Plan::RejectPath => Some("Invalid path: "@ + path),
        _ => None,
    }
}

/// Writes the diagnostic for a target that is not scanned. There is none
/// for a plan under which files are scanned.
pub fn refusal(plan: Plan, path: &str) -> (message: Option<String>)
    ensures
        match message {
            Some(text) => refusal_text(plan, path@) == Some(text@),
            None => refusal_text(plan, path@) is None,
        },
{
    match plan {
        Plan::RefuseDirectory => {
            let mut text = String::from_str(
                "Path is a directory. Use -r/--recursive to search recursively: ",
            );
            text.append(path);
            Some(text)
        },
        Plan::RejectPath => {
            let mut text = String::from_str("Invalid path: ");
            text.append(path);
            Some(text)
        },
        _ => None,
    }
}

/// The context given with the failure to open a file.
pub open spec fn open_failure_text(path: Seq<char>) -> Seq<char> {
    "Failed to open file: "@ + path
}

/// Writes the context given with the failure to open the file at `path`.
pub fn open_failure(path: &str) -> (message: String)
    ensures
        message@ == open_failure_text(path@),
{
    let mut message = String::from_str("Failed to open file: ");
    message.append(path);
    message
}

/// What happened to one entry met during the run.
#[derive(Clone, Copy, Debug, PartialEq, Eq, Structural)]
pub enum FileEvent {
    /// A file was scanned to its end and reported this many matches.
    Scanned(usize),
    /// A file could not be opened, or one of its lines could not be read.
    ScanFailed,
    /// An entry of a directory could not be read.
    EntryUnreadable,
}

/// How the run goes on after an event.
#[derive(Clone, Copy, Debug, PartialEq, Eq, Structural)]
pub enum Reaction {
    /// The run goes on.
    Continue,
    /// The failure is reported, the entry is left out and the run goes on.
    ReportAndSkip,
    /// The failure is reported and the run ends with `EXIT_FAILURE`.
    Abort,
}

/// The running total of a run.
#[derive(Clone, Copy, Debug, PartialEq, Eq, Structural)]
pub struct Tally {
    /// The matches reported by the files scanned so far.
    pub total: usize,
}

impl Tally {
    /// The tally after an event: the matches of a scanned file are added,
    /// a failure adds nothing.
    pub open spec fn after(self, event: FileEvent) -> Tally {
        match event {
            FileEvent::Scanned(matches) => Tally { total: (self.total + matches) as usize },
            _ => self,
        }
    }

    /// The reaction to an event under a plan. A failure ends the run only
    /// where the failing file is the one file that was asked for.
    pub open spec fn reaction_to(plan: Plan, event: FileEvent) -> Reaction {
        match event {
            FileEvent::Scanned(_) => Reaction::Continue,
            _ => if plan == Plan::WalkTree {
                Reaction::ReportAndSkip
            } else {
                Reaction::Abort
            },
        }
    }

    /// The status with which a run of this total ends.
    pub open spec fn status(self) -> i32 {
        if self.total > 0 {
            EXIT_MATCHED
        } else {
            EXIT_NO_MATCH
        }
    }

    /// The tally of a run that has scanned nothing yet.
    pub fn new() -> (tally: Tally)
        ensures
            tally.total == 0,
    {
        Tally { total: 0 }
    }

    /// Tells whether the matches of one more file fit into the total.
    pub fn has_room_for(&self, matches: usize) -> (fits: bool)
        ensures
            fits == (self.total + matches <= usize::MAX),
    {
        matches <= usize::MAX - self.total
    }

    /// Takes note of an event and says how the run goes on.
    pub fn record(&mut self, plan: Plan, event: FileEvent) -> (reaction: Reaction)
        requires
            event matches FileEvent::Scanned(matches) ==> old(self).total + matches <= usize::MAX,
        ensures
            *final(self) == old(self).after(event),
            reaction == Tally::reaction_to(plan, event),
    {
        match event {
            FileEvent::Scanned(matches) => {
                self.total = self.total + matches;
                Reaction::Continue
            },
            _ => {
                if plan == Plan::WalkTree {
                    Reaction::ReportAndSkip
                } else {
                    Reaction::Abort
                }
            },
        }
    }

    /// The status with which the run ends: `EXIT_MATCHED` if any file
    /// reported a match, `EXIT_NO_MATCH` if none did.
    pub fn exit_code(&self) -> (code: i32)
        ensures
            code == self.status(),
    {
        if self.total > 0 {
            EXIT_MATCHED
        } else {
            EXIT_NO_MATCH
        }
    }
}

/// The status with which a run under `plan` ends before anything is
/// scanned, if it does.
pub fn early_exit(plan: Plan) -> (code: Option<i32>)
    ensures
        code == (if plan == Plan::RefuseDirectory || plan == Plan::RejectPath {
            Some(EXIT_FAILURE)
        } else {
            None
        }),
{
    match plan {
        Plan::RefuseDirectory => Some(EXIT_FAILURE),
        Plan::RejectPath => Some(EXIT_FAILURE),
        _ => None,
    }
}

} // verus!
