//! Symbolic links as data: source, target, kind, and batches with their
//! validation rules.

use crate::errors::UhpmError;
use crate::text::view_opt;
use crate::text::push_char;
use crate::text::str_eq;
use crate::text::str_to_string;
use crate::timestamp::Timestamp;
use vstd::prelude::*;

verus! {

/// Whether a file or a directory is linked.
#[derive(Clone, Copy, Debug, PartialEq, Eq, Hash, Structural)]
pub enum SymlinkType {
    File,
    Directory,
}

impl SymlinkType {
    pub fn is_file(&self) -> (r: bool)
        ensures
            r == (*self == SymlinkType::File),
    {
        match self {
            SymlinkType::File => true,
            SymlinkType::Directory => false,
        }
    }

    pub fn is_directory(&self) -> (r: bool)
        ensures
            r == (*self == SymlinkType::Directory),
    {
        match self {
            SymlinkType::File => false,
            SymlinkType::Directory => true,
        }
    }
}

impl Default for SymlinkType {
    /// A file link.
    fn default() -> (r: SymlinkType)
        ensures
            r == SymlinkType::File,
    {
        SymlinkType::File
    }
}

/// The ledger token of a link kind.
pub open spec fn symlink_type_str(t: SymlinkType) -> Seq<char> {
    match t {
        SymlinkType::File => "file"@,
        SymlinkType::Directory => "directory"@,
    }
}

/// Writes a link kind as its ledger token.
pub fn symlink_type_to_string(t: &SymlinkType) -> (r: String)
    ensures
        r@ == symlink_type_str(*t),
{
    match t {
        SymlinkType::File => str_to_string("file"),
        SymlinkType::Directory => str_to_string("directory"),
    }
}

/// Reads a link kind from its ledger token; an unknown token is a file
/// link.
pub fn string_to_symlink_type(s: &str) -> (r: SymlinkType)
    ensures
        s@ == "directory"@ ==> r == SymlinkType::Directory,
        s@ != "directory"@ ==> r == SymlinkType::File,
{
    if str_eq(s, "directory") {
        SymlinkType::Directory
    } else {
        SymlinkType::File
    }
}

/// Who made the link and why.
#[derive(Clone, Debug, PartialEq, Eq)]
pub struct SymlinkMetadata {
    pub created_at: Timestamp,
    pub owner: Option<String>,
    pub group: Option<String>,
    pub description: Option<String>,
}

impl SymlinkMetadata {
    /// Metadata stamped now, with nothing else.
    pub fn new() -> (r: SymlinkMetadata)
        ensures
            r.owner is None,
            r.group is None,
            r.description is None,
    {
        SymlinkMetadata { created_at: Timestamp::now(), owner: None, group: None, description: None }
    }

    pub fn with_owner(self, owner: &str) -> (r: SymlinkMetadata)
        ensures
            r.owner matches Some(o) && o@ == owner@,
            r.group == self.group,
            r.description == self.description,
            r.created_at == self.created_at,
    {
        SymlinkMetadata { owner: Some(str_to_string(owner)), ..self }
    }

    pub fn with_group(self, group: &str) -> (r: SymlinkMetadata)
        ensures
            r.group matches Some(g) && g@ == group@,
            r.owner == self.owner,
            r.description == self.description,
            r.created_at == self.created_at,
    {
        SymlinkMetadata { group: Some(str_to_string(group)), ..self }
    }

    pub fn with_description(self, description: &str) -> (r: SymlinkMetadata)
        ensures
            r.description matches Some(d) && d@ == description@,
            r.owner == self.owner,
            r.group == self.group,
            r.created_at == self.created_at,
    {
        SymlinkMetadata { description: Some(str_to_string(description)), ..self }
    }

    /// A field-by-field copy.
    pub fn duplicate(&self) -> (r: SymlinkMetadata)
        ensures
            view_opt(r.owner) == view_opt(self.owner),
            view_opt(r.group) == view_opt(self.group),
            view_opt(r.description) == view_opt(self.description),
    {
        SymlinkMetadata {
            created_at: self.created_at.duplicate(),
            owner: match &self.owner {
                Some(s) => Some(str_to_string(s.as_str())),
                None => None,
            },
            group: match &self.group {
                Some(s) => Some(str_to_string(s.as_str())),
                None => None,
            },
            description: match &self.description {
                Some(s) => Some(str_to_string(s.as_str())),
                None => None,
            },
        }
    }
}

/// A link from `target` (the path created) to `source` (the path linked
/// to).
#[derive(Clone, Debug, PartialEq, Eq)]
pub struct Symlink {
    pub source: String,
    pub target: String,
    pub link_type: SymlinkType,
    pub metadata: SymlinkMetadata,
}

/// A link worth making: both ends named, and not the same path.
pub open spec fn symlink_valid(s: Symlink) -> bool {
    s.source@.len() > 0 && s.target@.len() > 0 && s.source@ != s.target@
}

impl Symlink {
    pub fn new(source: String, target: String, link_type: SymlinkType) -> (r: Symlink)
        ensures
            r.source@ == source@,
            r.target@ == target@,
            r.link_type == link_type,
    {
        Symlink { source, target, link_type, metadata: SymlinkMetadata::new() }
    }

    /// A file link.
    pub fn file(source: String, target: String) -> (r: Symlink)
        ensures
            r.source@ == source@,
            r.target@ == target@,
            r.link_type == SymlinkType::File,
    {
        Symlink::new(source, target, SymlinkType::File)
    }

    /// A directory link.
    pub fn directory(source: String, target: String) -> (r: Symlink)
        ensures
            r.source@ == source@,
            r.target@ == target@,
            r.link_type == SymlinkType::Directory,
    {
        Symlink::new(source, target, SymlinkType::Directory)
    }

    pub fn with_metadata(self, metadata: SymlinkMetadata) -> (r: Symlink)
        ensures
            r.metadata == metadata,
            r.source@ == self.source@,
            r.target@ == self.target@,
            r.link_type == self.link_type,
    {
        Symlink { metadata, ..self }
    }

    pub fn is_file_link(&self) -> (r: bool)
        ensures
            r == (self.link_type == SymlinkType::File),
    {
        self.link_type.is_file()
    }

    pub fn is_directory_link(&self) -> (r: bool)
        ensures
            r == (self.link_type == SymlinkType::Directory),
    {
        self.link_type.is_directory()
    }

    /// Whether the target is an absolute path.
    pub fn is_absolute(&self) -> (r: bool)
        ensures
            r == (self.target@.len() > 0 && self.target@[0] == '/'),
    {
        let n = self.target.as_str().unicode_len();
        n > 0 && self.target.as_str().get_char(0) == '/'
    }

    /// Whether the target is a relative path.
    pub fn is_relative(&self) -> (r: bool)
        ensures
            r == !(self.target@.len() > 0 && self.target@[0] == '/'),
    {
        !self.is_absolute()
    }

    /// The target as an absolute path: itself if absolute, else under the
    /// base directory.
    pub fn resolve_absolute_path(&self, base_dir: &str) -> (r: String)
        ensures
            self.target@.len() > 0 && self.target@[0] == '/' ==> r@ == self.target@,
            !(self.target@.len() > 0 && self.target@[0] == '/') ==> r@ == base_dir@ + seq!['/']
                + self.target@,
    {
        if self.is_absolute() {
            str_to_string(self.target.as_str())
        } else {
            let mut r = str_to_string(base_dir);
            push_char(&mut r, '/');
            r.append(self.target.as_str());
            proof {
                assert(r@ =~= base_dir@ + seq!['/'] + self.target@);
            }
            r
        }
    }

    /// Rejects a link with an empty end or with both ends the same.
    pub fn validate(&self) -> (r: Result<(), UhpmError>)
        ensures
            r is Ok <==> symlink_valid(*self),
            r is Err ==> r matches Err(UhpmError::ValidationError(_)),
    {
        if self.source.as_str().unicode_len() == 0 {
            return Err(UhpmError::validation("symlink source cannot be empty"));
        }
        if self.target.as_str().unicode_len() == 0 {
            return Err(UhpmError::validation("symlink target cannot be empty"));
        }
        if str_eq(self.source.as_str(), self.target.as_str()) {
            return Err(UhpmError::validation("symlink source and target cannot be the same"));
        }
        Ok(())
    }

    /// A field-by-field copy.
    pub fn duplicate(&self) -> (r: Symlink)
        ensures
            r.source@ == self.source@,
            r.target@ == self.target@,
            r.link_type == self.link_type,
    {
        Symlink {
            source: str_to_string(self.source.as_str()),
            target: str_to_string(self.target.as_str()),
            link_type: self.link_type,
            metadata: self.metadata.duplicate(),
        }
    }
}

/// Distinct targets everywhere in the batch.
pub open spec fn no_duplicate_targets(links: Seq<Symlink>) -> bool {
    forall|i: int, j: int|
        0 <= i < j < links.len() ==> (#[trigger] links[i]).target@ != (#[trigger] links[j]).target@
}

/// A group of links materialized under one base directory.
#[derive(Clone, Debug)]
pub struct SymlinkBatch {
    pub links: Vec<Symlink>,
    pub base_directory: String,
}

impl SymlinkBatch {
    pub fn new(base_directory: String) -> (r: SymlinkBatch)
        ensures
            r.links@.len() == 0,
            r.base_directory@ == base_directory@,
    {
        SymlinkBatch { links: Vec::new(), base_directory }
    }

    /// Adds a link after validating it; an invalid link leaves the batch
    /// unchanged.
    pub fn add_link(&mut self, symlink: Symlink) -> (r: Result<(), UhpmError>)
        ensures
            r is Ok ==> symlink_valid(symlink)
                && final(self).links@ == old(self).links@.push(symlink),
            r is Err ==> !symlink_valid(symlink) && final(self).links@ == old(self).links@,
            final(self).base_directory@ == old(self).base_directory@,
    {
        match symlink.validate() {
            Ok(()) => {
                self.links.push(symlink);
                Ok(())
            },
            Err(e) => Err(e),
        }
    }

    /// Adds a file link.
    pub fn add_file_link(&mut self, source: String, target: String) -> (r: Result<(), UhpmError>)
        ensures
            final(self).base_directory@ == old(self).base_directory@,
            r is Ok ==> final(self).links@.len() == old(self).links@.len() + 1
                && final(self).links@.last().source@ == source@
                && final(self).links@.last().target@ == target@
                && final(self).links@.last().link_type == SymlinkType::File,
            r is Err ==> final(self).links@ == old(self).links@,
    {
        let symlink = Symlink::file(source, target);
        self.add_link(symlink)
    }

    /// Adds a directory link.
    pub fn add_directory_link(&mut self, source: String, target: String) -> (r: Result<
        (),
        UhpmError,
    >)
        ensures
            final(self).base_directory@ == old(self).base_directory@,
            r is Ok ==> final(self).links@.len() == old(self).links@.len() + 1
                && final(self).links@.last().source@ == source@
                && final(self).links@.last().target@ == target@
                && final(self).links@.last().link_type == SymlinkType::Directory,
            r is Err ==> final(self).links@ == old(self).links@,
    {
        let symlink = Symlink::directory(source, target);
        self.add_link(symlink)
    }

    /// Accepts the batch only when every link is valid and no two links
    /// claim the same target.
    pub fn validate_all(&self) -> (r: Result<(), UhpmError>)
        ensures
            r is Ok <==> (forall|k: int| 0 <= k < self.links@.len() ==> symlink_valid(
                #[trigger] self.links@[k],
            )) && no_duplicate_targets(self.links@),
            r is Err ==> r matches Err(UhpmError::ValidationError(_)),
    {
        let n = self.links.len();
        let mut k: usize = 0;
        while k < n
            invariant
                0 <= k <= n,
                n == self.links@.len(),
                forall|x: int| 0 <= x < k ==> symlink_valid(#[trigger] self.links@[x]),
            decreases n - k,
        {
            match self.links[k].validate() {
                Ok(()) => {},
                Err(e) => {
                    return Err(e);
                },
            }
            k = k + 1;
        }
        let mut i: usize = 0;
        while i < n
            invariant
                0 <= i <= n,
                n == self.links@.len(),
                forall|x: int, y: int|
                    0 <= x < y < n && x < i ==> (#[trigger] self.links@[x]).target@ != (
                    #[trigger] self.links@[y]).target@,
            decreases n - i,
        {
            let mut j: usize = i + 1;
            while j < n
                invariant
                    i < j <= n,
                    i < n,
                    n == self.links@.len(),
                    forall|y: int|
                        i < y < j ==> (#[trigger] self.links@[y]).target@
                            != self.links@[i as int].target@,
                decreases n - j,
            {
                if str_eq(
                    self.links[i].target.as_str(),
                    self.links[j].target.as_str(),
                ) {
                    return Err(UhpmError::validation("duplicate symlink target"));
                }
                j = j + 1;
            }
            i = i + 1;
        }
        Ok(())
    }
}

} // verus!
