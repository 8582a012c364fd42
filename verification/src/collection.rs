//! Collections: named, dated snapshots of the files of one export.

use crate::model::{CollectionView, Timestamp};
use crate::text::path_seq;
use vstd::prelude::*;

verus! {

/// The files of one export, under a name the user can change.
#[derive(Clone, Debug)]
pub struct Collection {
    name: String,
    files: Vec<String>,
    timestamp: Timestamp,
}

impl View for Collection {
    type V = CollectionView;

    closed spec fn view(&self) -> CollectionView {
        CollectionView {
            name: self.name@,
            files: path_seq(self.files@),
            num_files: self.files@.len(),
            timestamp: self.timestamp,
        }
    }
}

impl Collection {
    /// A collection of `files`, made at `timestamp`.
    pub fn new(name: String, files: Vec<String>, timestamp: Timestamp) -> (c: Collection)
        ensures
            c@ == CollectionView::created(name@, path_seq(files@), timestamp),
            c@.wf(),
    {
        Collection { name, files, timestamp }
    }

    /// The name.
    pub fn name(&self) -> (name: &String)
        ensures
            name@ == self@.name,
    {
        &self.name
    }

    /// The files, in the order of the export.
    pub fn files(&self) -> (files: &Vec<String>)
        ensures
            path_seq(files@) == self@.files,
    {
        &self.files
    }

    /// The count of files: always the length of the list.
    pub fn num_files(&self) -> (n: usize)
        ensures
            n == self@.num_files,
            n == self@.files.len(),
    {
        self.files.len()
    }

    /// Every collection counts its files.
    pub proof fn lemma_wf(&self)
        ensures
            self@.wf(),
    {
    }

    /// When the collection was made.
    pub fn timestamp(&self) -> (t: Timestamp)
        ensures
            t == self@.timestamp,
    {
        self.timestamp
    }

    /// Gives the collection another name.
    pub fn rename(&mut self, name: String)
        ensures
            final(self)@ == old(self)@.renamed(name@),
    {
        self.name = name;
    }

    /// Takes the file at `index` out and returns it; the count follows.
    /// Without a file at `index` nothing changes.
    pub fn remove_file(&mut self, index: usize) -> (removed: Option<String>)
        ensures
            index < old(self)@.files.len() ==> {
                &&& removed is Some
                &&& removed->0@ == old(self)@.files[index as int]
                &&& final(self)@ == old(self)@.without_file(index as int)
                &&& final(self)@.wf()
            },
            index >= old(self)@.files.len() ==> removed is None && final(self)@ == old(self)@,
    {
        if index < self.files.len() {
            let ghost before = path_seq(self.files@);
            let removed = self.files.remove(index);
            assert(path_seq(self.files@) =~= before.remove(index as int));
            Some(removed)
        } else {
            None
        }
    }
}

} // verus!
