//! The text of an export: the files that could be read, each under a
//! header with its name and between two fences.

use crate::app::App;
use crate::relative::{display_path, relative_to};
use vstd::prelude::*;
use vstd::string::StringExecFns;

verus! {

/// A file of an export and what reading it gave: its text, or `None` where
/// it could not be opened or is not text.
#[derive(Clone, Debug)]
pub struct FileRead {
    pub path: String,
    pub contents: Option<String>,
}

impl View for FileRead {
    type V = (Seq<char>, Option<Seq<char>>);

    open spec fn view(&self) -> (Seq<char>, Option<Seq<char>>) {
        (
            self.path@,
            match self.contents {
                Some(text) => Some(text@),
                None => None,
            },
        )
    }
}

/// The reads of an export as the contracts see them.
pub open spec fn reads_view(reads: Seq<FileRead>) -> Seq<(Seq<char>, Option<Seq<char>>)> {
    reads.map_values(|r: FileRead| r@)
}

/// The block of one file: a header line with its name, then its text
/// between two fence lines.
pub open spec fn block(name: Seq<char>, contents: Seq<char>) -> Seq<char> {
    "------ "@ + name + " ------\n"@ + "``````\n"@ + contents + "\n``````\n"@
}

/// The text of an export: the blocks of the files that were read, in the
/// order of `reads`, each file named relative to `base`; a file that was
/// not read leaves no trace.
pub open spec fn payload(reads: Seq<(Seq<char>, Option<Seq<char>>)>, base: Seq<char>) -> Seq<char>
    decreases reads.len(),
{
    if reads.len() == 0 {
        Seq::empty()
    } else {
        let front = payload(reads.drop_last(), base);
        match reads.last().1 {
            Some(text) => front + block(relative_to(reads.last().0, base), text),
            None => front,
        }
    }
}

/// Renders the text of an export.
pub fn render_payload(reads: &Vec<FileRead>, base: &str) -> (text: String)
    ensures
        text@ == payload(reads_view(reads@), base@),
{
    let mut text = String::new();
    let mut i: usize = 0;
    assert(reads_view(reads@).take(0) =~= Seq::empty());
    while i < reads.len()
        invariant
            i <= reads.len(),
            text@ == payload(reads_view(reads@).take(i as int), base@),
        decreases reads.len() - i,
    {
        let ghost front = text@;
        let read = &reads[i];
        match &read.contents {
            Some(contents) => {
                let name = display_path(read.path.as_str(), base);
                text.append("------ ");
                text.append(name.as_str());
                text.append(" ------\n");
                text.append("``````\n");
                text.append(contents.as_str());
                text.append("\n``````\n");
                assert(text@ =~= front + block(relative_to(read.path@, base@), contents@));
            },
            None => {},
        }
        proof {
            let done = reads_view(reads@).take(i + 1);
            assert(done.drop_last() =~= reads_view(reads@).take(i as int));
            assert(done.last() == read@);
        }
        i += 1;
    }
    assert(reads_view(reads@).take(i as int) =~= reads_view(reads@));
    text
}

impl App {
    /// The text of an export of `reads`, each file named relative to the
    /// directory the session started in.
    pub fn export_payload(&self, reads: &Vec<FileRead>) -> (text: String)
        ensures
            text@ == payload(reads_view(reads@), self@.base_dir),
    {
        render_payload(reads, self.base_dir().as_str())
    }
}

} // verus!
