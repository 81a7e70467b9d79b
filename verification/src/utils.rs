//! The order in which the paths under a root are visited.

use vstd::prelude::*;

verus! {

/// What was found at a path.
#[derive(Debug, Clone, PartialEq, Eq)]
pub enum Found {
    /// A file.
    File,
    /// A directory that holds these paths.
    Directory(Vec<String>),
}

/// The paths that are still to be visited. The one that was added last is
/// visited next.
pub struct Walk {
    pending: Vec<String>,
}

impl View for Walk {
    type V = Seq<Seq<char>>;

    closed spec fn view(&self) -> Seq<Seq<char>> {
        self.pending.deep_view()
    }
}

impl Walk {
    /// A walk that has only its root to visit.
    pub fn new(root_path: String) -> (r: Walk)
        ensures
            r@ == seq![root_path@],
    {
        let mut pending: Vec<String> = Vec::new();
        pending.push(root_path);
        assert(pending.deep_view() =~= seq![root_path@]);
        Walk { pending: pending }
    }

    /// Takes the path to visit next, or nothing where the walk is over.
    pub fn next_path(&mut self) -> (r: Option<String>)
        ensures
            match r {
                Some(path) => {
                    &&& old(self)@.len() > 0
                    &&& path@ == old(self)@.last()
                    &&& final(self)@ == old(self)@.drop_last()
                },
                None => old(self)@.len() == 0 && final(self)@ == old(self)@,
            },
    {
        let ghost before = self.pending.deep_view();
        let r = self.pending.pop();
        assert(r is Some ==> self.pending.deep_view() =~= before.drop_last());
        assert(r is None ==> self.pending.deep_view() =~= before);
        r
    }

    /// Takes in what was found at `path`. A file is handed back for
    /// scanning; the paths that a directory holds are added to those still
    /// to visit, the last of them to be visited first.
    pub fn advance(&mut self, path: String, found: Found) -> (r: Option<String>)
        ensures
            match found {
                Found::File => r == Some(path) && final(self)@ == old(self)@,
                Found::Directory(entries) => r is None && final(self)@ == old(self)@
                    + entries.deep_view(),
            },
    {
        match found {
            Found::File => Some(path),
            Found::Directory(entries) => {
                let ghost before = self.pending.deep_view();
                let mut entries = entries;
                let ghost added = entries.deep_view();
                self.pending.append(&mut entries);
                assert(self.pending.deep_view() =~= before + added);
                None
            },
        }
    }

    /// How many paths are still to be visited.
    pub fn remaining(&self) -> (r: usize)
        ensures
            r == self@.len(),
    {
        self.pending.len()
    }
}

} // verus!
