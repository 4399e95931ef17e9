//! The finding of files: what the walk over the directory tree sends, what
//! it decides after each entry, and what the receiver keeps.

use vstd::prelude::*;
use crate::app::App;

verus! {

/// How many entries may wait between the walk and the receiver.
pub const CHANNEL_CAPACITY: usize = 100;

/// How many threads walk the tree.
pub const WALK_THREADS: usize = 2;

/// What the walk sends to the receiver.
#[derive(Clone, Debug)]
pub enum DirEntry {
    /// An entry was found at this path.
    Message(String),
}

impl View for DirEntry {
    type V = Seq<char>;

    /// The path of the entry.
    open spec fn view(&self) -> Seq<char> {
        match self {
            DirEntry::Message(path) => path@,
        }
    }
}

impl DirEntry {
    /// The path of the entry.
    pub fn path(&self) -> (path: &String)
        ensures
            path@ == self@,
    {
        match self {
            DirEntry::Message(path) => path,
        }
    }
}

/// What became of one entry of the walk.
#[derive(Clone, Copy, Debug, PartialEq, Eq)]
pub enum Outcome {
    /// The entry could not be read; it is passed over.
    Skipped,
    /// The entry was sent to the receiver.
    Sent,
    /// The entry could not be sent: the receiver is gone.
    Refused,
}

/// Whether the walk goes on.
#[derive(Clone, Copy, Debug, PartialEq, Eq)]
pub enum WalkStep {
    Continue,
    Quit,
}

/// Decides whether the walk goes on after an entry: it stops as soon as the
/// receiver is gone, and for no other reason.
pub fn walk_step(outcome: Outcome) -> (step: WalkStep)
    ensures
        step == WalkStep::Quit <==> outcome == Outcome::Refused,
{
    match outcome {
        Outcome::Refused => WalkStep::Quit,
        _ => WalkStep::Continue,
    }
}

impl App {
    /// Takes an entry that the walk has sent: if it is a file, its path joins
    /// the known files; a directory or anything else is dropped. Tells
    /// whether a path was added.
    pub fn merge(&mut self, entry: DirEntry, is_file: bool) -> (added: bool)
        ensures
            is_file ==> final(self)@ == old(self)@.with_path(entry@, added),
            !is_file ==> !added && final(self)@ == old(self)@ && final(self).doc == old(self).doc,
            old(self).doc.wf() ==> final(self).doc.wf(),
            old(self).doc.wf() && is_file ==> added == !old(self)@.paths.contains(
                entry@,
            ),
            old(self).wf() ==> final(self).wf(),
    {
        if is_file {
            match entry {
                DirEntry::Message(path) => self.add_path(path),
            }
        } else {
            false
        }
    }
}

} // verus!
