//! Expanding a selection into the files to export: a file stands for
//! itself, a directory for every file below it. The work is done one path
//! at a time, so that looking at the path can be left to the caller.

use crate::app::App;
use crate::outcome::{Probe, ProbeView};
use crate::text::path_seq;
use vstd::prelude::*;

verus! {

/// An expansion under way, as the contracts see it.
#[verifier::ext_equal]
pub struct ExpansionView {
    /// The paths still to be looked at; the last one is next.
    pub pending: Seq<Seq<char>>,
    /// The files found so far, in the order in which they were found.
    pub files: Seq<Seq<char>>,
}

impl ExpansionView {
    /// The expansion of `roots` before any path was looked at: the first
    /// root is next.
    pub open spec fn start(roots: Seq<Seq<char>>) -> Self {
        ExpansionView { pending: roots.reverse(), files: Seq::empty() }
    }

    /// The path to look at next, if any is left.
    pub open spec fn next(self) -> Option<Seq<char>> {
        if self.pending.len() > 0 {
            Some(self.pending.last())
        } else {
            None
        }
    }

    /// One step: `probe` is what was found at the next path. A file is
    /// added to the files; the entries of a directory are to be looked at
    /// before anything else, the first of them first; whatever else was
    /// found is passed over.
    pub open spec fn step(self, probe: ProbeView) -> Self {
        if self.pending.len() == 0 {
            self
        } else {
            let path = self.pending.last();
            let rest = self.pending.drop_last();
            match probe {
                ProbeView::File => ExpansionView { pending: rest, files: self.files.push(path) },
                ProbeView::Directory(entries) => ExpansionView {
                    pending: rest + entries.reverse(),
                    files: self.files,
                },
                _ => ExpansionView { pending: rest, files: self.files },
            }
        }
    }
}

/// An expansion under way.
#[derive(Debug)]
pub struct Expansion {
    pending: Vec<String>,
    files: Vec<String>,
}

impl View for Expansion {
    type V = ExpansionView;

    closed spec fn view(&self) -> ExpansionView {
        ExpansionView { pending: path_seq(self.pending@), files: path_seq(self.files@) }
    }
}

impl Expansion {
    /// Begins to expand `roots`.
    pub fn new(roots: &Vec<String>) -> (e: Expansion)
        ensures
            e@ == ExpansionView::start(path_seq(roots@)),
    {
        let mut pending: Vec<String> = Vec::new();
        let mut i: usize = roots.len();
        while i > 0
            invariant
                i <= roots.len(),
                pending.len() == roots.len() - i,
                forall|k: int|
                    0 <= k < pending.len() ==> (#[trigger] pending[k])@ == roots[roots.len() - 1
                        - k]@,
            decreases i,
        {
            i -= 1;
            pending.push(roots[i].clone());
        }
        let e = Expansion { pending, files: Vec::new() };
        assert(e@.pending =~= path_seq(roots@).reverse());
        assert(e@.files =~= Seq::<Seq<char>>::empty());
        e
    }

    /// The path to look at next; `None` when the expansion is complete.
    pub fn next(&self) -> (path: Option<&String>)
        ensures
            match path {
                Some(p) => self@.next() == Some(p@),
                None => self@.next() is None,
            },
    {
        let n = self.pending.len();
        if n > 0 {
            Some(&self.pending[n - 1])
        } else {
            None
        }
    }

    /// Whether every path was looked at.
    pub fn is_done(&self) -> (done: bool)
        ensures
            done == (self@.pending.len() == 0),
    {
        self.pending.len() == 0
    }

    /// Takes one step, `probe` being what was found at the path that
    /// `next` gave.
    pub fn advance(&mut self, probe: Probe)
        ensures
            final(self)@ == old(self)@.step(probe@),
    {
        let ghost before = path_seq(self.pending@);
        match self.pending.pop() {
            None => {},
            Some(path) => {
                let ghost rest = path_seq(self.pending@);
                assert(rest =~= before.drop_last());
                match probe {
                    Probe::File => {
                        let ghost found = path_seq(self.files@);
                        self.files.push(path);
                        assert(path_seq(self.files@) =~= found.push(before.last()));
                    },
                    Probe::Directory(entries) => {
                        let ghost listed = path_seq(entries@);
                        let mut entries = entries;
                        while entries.len() > 0
                            invariant
                                entries.len() <= listed.len(),
                                path_seq(entries@) == listed.take(entries.len() as int),
                                path_seq(self.pending@) == rest + listed.skip(
                                    entries.len() as int,
                                ).reverse(),
                                self.files == old(self).files,
                            decreases entries.len(),
                        {
                            let ghost n = entries.len() as int;
                            let ghost stacked = path_seq(self.pending@);
                            let entry = entries.pop().unwrap();
                            self.pending.push(entry);
                            proof {
                                assert(entry@ == listed.take(n)[n - 1]);
                                assert(path_seq(entries@) =~= listed.take(n - 1));
                                assert(path_seq(self.pending@) =~= stacked.push(entry@));
                                assert(listed.skip(n - 1).reverse() =~= listed.skip(n).reverse().push(
                                    listed[n - 1],
                                ));
                            }
                        }
                        assert(listed.skip(0) =~= listed);
                    },
                    _ => {},
                }
            },
        }
    }

    /// The files found so far.
    pub fn files(&self) -> (files: &Vec<String>)
        ensures
            path_seq(files@) == self@.files,
    {
        &self.files
    }

    /// Ends the expansion and gives the files found.
    pub fn into_files(self) -> (files: Vec<String>)
        ensures
            path_seq(files@) == self@.files,
    {
        self.files
    }
}

impl App {
    /// Begins to expand the selection, in the order in which it was made.
    pub fn expand_selection(&self) -> (e: Expansion)
        ensures
            e@ == ExpansionView::start(self@.selected_items),
    {
        Expansion::new(self.selected_items())
    }
}

} // verus!
