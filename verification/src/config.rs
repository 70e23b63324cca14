//! The static description of one synchronisation set-up.

use crate::path::texts;
use vstd::prelude::*;

verus! {

/// What to watch and where to mirror it.
pub struct Config {
    /// Absolute paths of the files and folders to watch, recursively.
    files_to_watch: Vec<String>,
    /// Absolute path of the working tree that receives the copies.
    destination_repo: String,
    /// Name of the remote that commits are pushed to.
    remote: String,
    /// Ref-spec used for the push.
    refs: String,
}

impl Config {
    pub closed spec fn spec_files_to_watch(&self) -> Seq<Seq<char>> {
        texts(self.files_to_watch@)
    }

    pub closed spec fn spec_destination_repo(&self) -> Seq<char> {
        self.destination_repo@
    }

    pub closed spec fn spec_remote(&self) -> Seq<char> {
        self.remote@
    }

    pub closed spec fn spec_refs(&self) -> Seq<char> {
        self.refs@
    }

    pub fn new(
        files_to_watch: Vec<String>,
        destination_repo: String,
        remote: String,
        refs: String,
    ) -> (config: Config)
        ensures
            config.spec_files_to_watch() == texts(files_to_watch@),
            config.spec_destination_repo() == destination_repo@,
            config.spec_remote() == remote@,
            config.spec_refs() == refs@,
    {
        Config { files_to_watch, destination_repo, remote, refs }
    }

    pub fn files_to_watch(&self) -> (paths: Vec<String>)
        ensures
            texts(paths@) == self.spec_files_to_watch(),
    {
        let paths = self.files_to_watch.clone();
        assert(texts(paths@) =~= texts(self.files_to_watch@)) by {
            assert forall|i: int| 0 <= i < paths@.len() implies paths@[i] == self.files_to_watch@[i] by {
                assert(cloned::<String>(self.files_to_watch@[i], paths@[i]));
            }
        }
        paths
    }

    pub fn destination_repo(&self) -> (path: String)
        ensures
            path@ == self.spec_destination_repo(),
    {
        self.destination_repo.clone()
    }

    pub fn remote(&self) -> (name: String)
        ensures
            name@ == self.spec_remote(),
    {
        self.remote.clone()
    }

    pub fn refs(&self) -> (refspec: String)
        ensures
            refspec@ == self.spec_refs(),
    {
        self.refs.clone()
    }
}

} // verus!
