//! The files of a store that is kept as text.

use crate::parts::{closes_with, piece_stands, stands_at};
use vstd::prelude::*;
use vstd::string::*;

verus! {

/// A store in a file, with its log in a file beside it, so that loading and saving the store
/// never reads what is long past.
#[derive(Debug)]
pub struct JsonBackend {
    pub path: String,
}

impl JsonBackend {
    /// The path of the log.
    pub fn log_path(&self) -> (path: String)
        ensures
            path@ == self.path@ + ".log.json"@,
            stands_at(path@, 0, self.path@),
            closes_with(path@, ".log.json"@),
    {
        let mut path = self.path.clone();
        path.append(".log.json");
        proof {
            assert(path@.subrange(0, self.path@.len() as int) =~= self.path@);
            assert(path@ + Seq::<char>::empty() =~= path@);
            piece_stands(self.path@, ".log.json"@, Seq::empty());
        }
        path
    }
}

/// The file beside another that is written first and then takes its place.
pub fn temp_sibling(path: &str) -> (sibling: String)
    ensures
        sibling@ == path@ + ".tmp"@,
        stands_at(sibling@, 0, path@),
        closes_with(sibling@, ".tmp"@),
{
    let mut sibling = path.to_owned();
    sibling.append(".tmp");
    proof {
        assert(sibling@.subrange(0, path@.len() as int) =~= path@);
        assert(sibling@ + Seq::<char>::empty() =~= sibling@);
        piece_stands(path@, ".tmp"@, Seq::empty());
    }
    sibling
}

} // verus!
