//! What the world outside answered: the library asks for a path to be
//! looked at, or for the clipboard to be written, and is told how it went.

use crate::text::path_seq;
use vstd::prelude::*;

verus! {

/// What was found at a path.
#[derive(Clone, Debug)]
pub enum Probe {
    /// A regular file.
    File,
    /// A directory, with the paths of its immediate entries in the order in
    /// which they were read.
    Directory(Vec<String>),
    /// A directory whose entries could not be read.
    Unreadable,
    /// Nothing, or something that is neither file nor directory.
    Other,
}

/// What was found at a path, as the contracts see it.
pub enum ProbeView {
    File,
    Directory(Seq<Seq<char>>),
    Unreadable,
    Other,
}

impl View for Probe {
    type V = ProbeView;

    open spec fn view(&self) -> ProbeView {
        match self {
            Probe::File => ProbeView::File,
            Probe::Directory(entries) => ProbeView::Directory(path_seq(entries@)),
            Probe::Unreadable => ProbeView::Unreadable,
            Probe::Other => ProbeView::Other,
        }
    }
}

/// Why a command was abandoned.
#[derive(Clone, Copy, Debug, PartialEq, Eq, Structural)]
pub enum Error {
    /// The directory to be listed could not be read.
    DirectoryUnreadable,
    /// The clipboard could not be written.
    ClipboardUnavailable,
}

} // verus!
