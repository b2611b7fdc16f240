//! Repositories as sources describe them and as the inventory records them.

use vstd::prelude::*;

use crate::error::{Error, ErrorModel, Result};
use crate::string_set::StringSet;
use crate::text::{cat2, debug_quote, debug_text, opt_clone, opt_text, text_eq};

verus! {

/// A repository as a source describes it.
#[derive(Clone, Debug, PartialEq, Eq)]
pub struct RepoSpec {
    /// The identifier under which the source knows the repository.
    pub id: String,
    /// The remote in a form that does not depend on the transport.
    pub canonical_url: String,
    /// The remote as it is handed to Git.
    pub clone_url: String,
    /// The branch that may be fast-forwarded, where the source knows it.
    pub default_branch: Option<String>,
    /// The tags that the source gives the repository.
    pub tags: StringSet,
}

/// A repository as a source describes it, with its texts as characters.
pub struct SpecModel {
    pub id: Seq<char>,
    pub canonical_url: Seq<char>,
    pub clone_url: Seq<char>,
    pub default_branch: Option<Seq<char>>,
    pub tags: Set<Seq<char>>,
}

impl View for RepoSpec {
    type V = SpecModel;

    open spec fn view(&self) -> SpecModel {
        SpecModel {
            id: self.id@,
            canonical_url: self.canonical_url@,
            clone_url: self.clone_url@,
            default_branch: opt_text(self.default_branch),
            tags: self.tags@,
        }
    }
}

/// The descriptions of a list.
pub open spec fn specs(list: Seq<RepoSpec>) -> Seq<SpecModel> {
    Seq::new(list.len(), |i: int| list[i]@)
}

/// A repository of the inventory.
#[derive(Debug, PartialEq, Eq)]
pub struct RepoRecord {
    /// The identifier of the repository.
    pub id: String,
    /// The remote in a form that does not depend on the transport.
    pub canonical_url: String,
    /// The remote as it is handed to Git.
    pub clone_url: String,
    /// The directory of the working tree.
    pub local_path: String,
    /// The branch that may be fast-forwarded, where it is known.
    pub default_branch: Option<String>,
    /// Whether some source still lists the repository.
    pub active: bool,
    /// The outcome of the last synchronization.
    pub status: RepoStatus,
    /// The sources that list the repository.
    pub sources: StringSet,
    /// The tags of the repository.
    pub tags: StringSet,
    /// The message of the last failed synchronization.
    pub last_error: Option<String>,
}

/// A repository of the inventory, with its texts as characters.
pub struct RecordModel {
    pub id: Seq<char>,
    pub canonical_url: Seq<char>,
    pub clone_url: Seq<char>,
    pub local_path: Seq<char>,
    pub default_branch: Option<Seq<char>>,
    pub active: bool,
    pub status: RepoStatus,
    pub sources: Set<Seq<char>>,
    pub tags: Set<Seq<char>>,
    pub last_error: Option<Seq<char>>,
}

impl View for RepoRecord {
    type V = RecordModel;

    open spec fn view(&self) -> RecordModel {
        RecordModel {
            id: self.id@,
            canonical_url: self.canonical_url@,
            clone_url: self.clone_url@,
            local_path: self.local_path@,
            default_branch: opt_text(self.default_branch),
            active: self.active,
            status: self.status,
            sources: self.sources@,
            tags: self.tags@,
            last_error: opt_text(self.last_error),
        }
    }
}

/// The records of a list.
pub open spec fn records(list: Seq<RepoRecord>) -> Seq<RecordModel> {
    Seq::new(list.len(), |i: int| list[i]@)
}

impl Clone for RepoRecord {
    fn clone(&self) -> (copy: RepoRecord)
        ensures
            copy@ == self@,
    {
        RepoRecord {
            id: self.id.clone(),
            canonical_url: self.canonical_url.clone(),
            clone_url: self.clone_url.clone(),
            local_path: self.local_path.clone(),
            default_branch: opt_clone(&self.default_branch),
            active: self.active,
            status: self.status,
            sources: self.sources.clone(),
            tags: self.tags.clone(),
            last_error: opt_clone(&self.last_error),
        }
    }
}

/// The outcome of the last synchronization of a repository.
#[derive(Clone, Copy, Debug, PartialEq, Eq, Structural)]
pub enum RepoStatus {
    /// The repository was never synchronized.
    Pending,
    /// The working tree exists and was synchronized.
    Ready,
    /// The first synchronization failed.
    Error,
}

impl RepoStatus {
    /// The word by which a status is stored.
    pub open spec fn word(self) -> Seq<char> {
        match self {
            RepoStatus::Pending => "pending"@,
            RepoStatus::Ready => "ready"@,
            RepoStatus::Error => "error"@,
        }
    }

    /// The word by which a status is stored.
    pub fn as_str(self) -> (word: &'static str)
        ensures
            word@ == self.word(),
    {
        match self {
            RepoStatus::Pending => "pending",
            RepoStatus::Ready => "ready",
            RepoStatus::Error => "error",
        }
    }

    /// The status that is stored by a word.
    pub fn parse(value: &str) -> (status: Result<RepoStatus>)
        ensures
            match status {
                Ok(status) => value@ == status.word(),
                Err(error) => {
                    &&& forall|status: RepoStatus| #[trigger] status.word() != value@
                    &&& error@ == ErrorModel::Config(
                        "unknown repository status "@ + debug_text(value@),
                    )
                },
            },
    {
        if text_eq(value, "pending") {
            Ok(RepoStatus::Pending)
        } else if text_eq(value, "ready") {
            Ok(RepoStatus::Ready)
        } else if text_eq(value, "error") {
            Ok(RepoStatus::Error)
        } else {
            Err(Error::Config(cat2("unknown repository status ", debug_quote(value).as_str())))
        }
    }

    /// Different statuses are stored by different words, so a stored word
    /// gives back the status it was written for.
    pub proof fn law_words_differ(left: RepoStatus, right: RepoStatus)
        requires
            left.word() == right.word(),
        ensures
            left == right,
    {
        reveal_strlit("pending");
        reveal_strlit("ready");
        reveal_strlit("error");
        assert("pending"@[0] == 'p');
        assert("ready"@[0] == 'r');
        assert("error"@[0] == 'e');
    }
}

/// The transport that clone URLs use.
#[derive(Clone, Copy, Debug, PartialEq, Eq, Structural)]
pub enum CloneProtocol {
    /// Clone over SSH.
    Ssh,
    /// Clone over HTTPS.
    Https,
}

impl Default for CloneProtocol {
    fn default() -> (protocol: CloneProtocol)
        ensures
            protocol == CloneProtocol::Ssh,
    {
        CloneProtocol::Ssh
    }
}

}
