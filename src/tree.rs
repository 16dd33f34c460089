use vstd::prelude::*;

verus! {

/// A 20-byte node hash.
#[derive(Clone, Copy, Debug, Default, PartialEq, Eq, Hash)]
pub struct HgId {
    pub bytes: [u8; 20],
}

impl HgId {
    /// Byte-exact equality.
    pub fn same_as(&self, other: &HgId) -> (r: bool)
        ensures
            r == (self.bytes@ == other.bytes@),
    {
        let mut i: usize = 0;
        while i < 20
            invariant
                0 <= i <= 20,
                forall|k: int| 0 <= k < i ==> self.bytes@[k] == other.bytes@[k],
            decreases 20 - i,
        {
            if self.bytes[i] != other.bytes[i] {
                return false;
            }
            i = i + 1;
        }
        proof {
            assert(self.bytes@ =~= other.bytes@);
        }
        true
    }
}

/// The parents of a node.
#[derive(Clone, Copy, Debug, PartialEq, Eq, Hash)]
pub enum Parents {
    /// A root node, without parents.
    Root,
    One(HgId),
    Two(HgId, HgId),
}

/// A path in the repository with the hash of a node at that path.
#[derive(Clone, Debug, Default, PartialEq, Eq, Hash)]
pub struct Key {
    pub path: String,
    pub hgid: HgId,
}

/// Metadata of a file entry of a tree.
#[derive(Clone, Debug, Default, PartialEq, Eq)]
pub struct FileMetadata {
    pub revisionstore_flags: Option<u64>,
    pub size: Option<u64>,
    pub content_sha1: Option<HgId>,
}

/// Metadata of a directory entry of a tree.
#[derive(Clone, Debug, Default, PartialEq, Eq)]
pub struct DirectoryMetadata {
    pub child_files_count: Option<u64>,
    pub child_dirs_count: Option<u64>,
    pub descendant_files_count: Option<u64>,
}

/// A token that proves an upload.
#[derive(Clone, Debug, Default, PartialEq, Eq)]
pub struct UploadToken {
    pub id: Vec<u8>,
    pub signature: Vec<u8>,
}

/// Content whose hash does not match the expected node hash.
#[derive(Clone, Debug, PartialEq, Eq)]
pub struct InvalidHgId {
    pub expected: HgId,
    pub computed: HgId,
    pub data: Vec<u8>,
    pub parents: Parents,
}

#[derive(Clone, Debug, PartialEq, Eq)]
pub enum TreeError {
    Corrupt(InvalidHgId),
    /// If this entry represents a root node (i.e., has an empty path), it may be a
    /// hybrid tree manifest which has the content of a root tree manifest node, but the
    /// hash of the corresponding flat manifest.
    MaybeHybridManifest(InvalidHgId),
    MissingField(String),
}

impl TreeError {
    /// The data anyway, despite the error.
    pub fn data(&self) -> (r: Option<Vec<u8>>)
        ensures
            match self {
                TreeError::Corrupt(e) => r matches Some(d) && d@ == e.data@,
                TreeError::MaybeHybridManifest(e) => r matches Some(d) && d@ == e.data@,
                TreeError::MissingField(_) => r is None,
            },
    {
        match self {
            TreeError::Corrupt(e) => Some(e.data.clone()),
            TreeError::MaybeHybridManifest(e) => Some(e.data.clone()),
            TreeError::MissingField(_) => None,
        }
    }
}

/// An error that the server reported for one entry.
#[derive(Clone, Debug, Default, PartialEq, Eq)]
pub struct ServerError {
    pub code: u64,
    pub message: String,
}

/// A tree entry on the wire, with what is needed to add its data to a store and the
/// parents to check its hash.
#[derive(Clone, Debug, Default, PartialEq, Eq)]
pub struct TreeEntry {
    pub key: Key,
    pub data: Option<Vec<u8>>,
    pub parents: Option<Parents>,
    pub children: Option<Vec<Result<TreeChildEntry, ServerError>>>,
}

impl TreeEntry {
    pub fn new(key: Key) -> (r: TreeEntry)
        ensures
            r == (TreeEntry { key, data: None, parents: None, children: None }),
    {
        TreeEntry { key, data: None, parents: None, children: None }
    }

    pub fn with_data(&mut self, data: Option<Vec<u8>>) -> (r: &mut TreeEntry)
        ensures
            *r == (TreeEntry { data, ..*old(self) }),
            *final(self) == *final(r),
    {
        self.data = data;
        self
    }

    pub fn with_parents(&mut self, parents: Option<Parents>) -> (r: &mut TreeEntry)
        ensures
            *r == (TreeEntry { parents, ..*old(self) }),
            *final(self) == *final(r),
    {
        self.parents = parents;
        self
    }

    pub fn with_children(&mut self, children: Option<Vec<Result<TreeChildEntry, ServerError>>>) -> (r: &mut TreeEntry)
        ensures
            *r == (TreeEntry { children, ..*old(self) }),
            *final(self) == *final(r),
    {
        self.children = children;
        self
    }

    pub fn key(&self) -> (r: &Key)
        ensures
            *r == self.key,
    {
        &self.key
    }

    /// The data after checking it against the node hash, where `computed` is the hash
    /// of the data and the parents. A mismatch on the root path (an empty path) may be a
    /// hybrid manifest, which has the content of a tree manifest but the hash of a flat
    /// one; elsewhere the data is corrupt.
    pub fn data_checked(&self, computed: HgId) -> (r: Result<Vec<u8>, TreeError>)
        ensures
            self.data is None ==> (r matches Err(TreeError::MissingField(f)) && f@ == "data"@),
            self.data is Some && self.parents is None ==> (r matches Err(
                TreeError::MissingField(f),
            ) && f@ == "parents"@),
            self.data is Some && self.parents is Some && computed.bytes@ == self.key.hgid.bytes@ ==> (
            r matches Ok(v) && v@ == self.data->0@),
            self.data is Some && self.parents is Some && computed.bytes@ != self.key.hgid.bytes@
                && self.key.path@.len() == 0 ==> (r matches Err(TreeError::MaybeHybridManifest(e))
                && e.data@ == self.data->0@ && e.expected == self.key.hgid && e.computed == computed
                && e.parents == self.parents->0),
            self.data is Some && self.parents is Some && computed.bytes@ != self.key.hgid.bytes@
                && self.key.path@.len() != 0 ==> (r matches Err(TreeError::Corrupt(e)) && e.data@
                == self.data->0@ && e.expected == self.key.hgid && e.computed == computed && e.parents
                == self.parents->0),
    {
        match &self.data {
            Some(data) => match self.parents {
                Some(parents) => {
                    if !computed.same_as(&self.key.hgid) {
                        let copy = data.clone();
                        proof {
                            assert(copy@ =~= data@);
                        }
                        let err = InvalidHgId { expected: self.key.hgid, computed, data: copy, parents };
                        let path = self.key.path.as_str();
                        proof {
                            assert(path@ == self.key.path@);
                        }
                        if path.is_empty() {
                            Err(TreeError::MaybeHybridManifest(err))
                        } else {
                            Err(TreeError::Corrupt(err))
                        }
                    } else {
                        let copy = data.clone();
                        proof {
                            assert(copy@ =~= data@);
                        }
                        Ok(copy)
                    }
                },
                None => Err(TreeError::MissingField("parents".to_owned())),
            },
            None => Err(TreeError::MissingField("data".to_owned())),
        }
    }

    /// The data, checked against the node hash as `data_checked` does, but accepting a
    /// hash mismatch on a suspected hybrid manifest.
    pub fn data(&self, computed: HgId) -> (r: Result<Vec<u8>, TreeError>)
        ensures
            self.data is None ==> (r matches Err(TreeError::MissingField(f)) && f@ == "data"@),
            self.data is Some && self.parents is None ==> (r matches Err(
                TreeError::MissingField(f),
            ) && f@ == "parents"@),
            self.data is Some && self.parents is Some && (computed.bytes@ == self.key.hgid.bytes@
                || self.key.path@.len() == 0) ==> (r matches Ok(v) && v@ == self.data->0@),
            self.data is Some && self.parents is Some && computed.bytes@ != self.key.hgid.bytes@
                && self.key.path@.len() != 0 ==> (r matches Err(TreeError::Corrupt(e)) && e.data@
                == self.data->0@ && e.expected == self.key.hgid && e.computed == computed && e.parents
                == self.parents->0),
    {
        match self.data_checked(computed) {
            Ok(d) => Ok(d),
            Err(e) => match e {
                TreeError::MaybeHybridManifest(bad) => Ok(bad.data),
                other => Err(other),
            },
        }
    }

    /// The data without checking the node hash.
    pub fn data_unchecked(&self) -> (r: Option<Vec<u8>>)
        ensures
            self.data is None ==> r is None,
            self.data matches Some(d) ==> r matches Some(v) && v@ == d@,
    {
        match &self.data {
            Some(d) => Some(d.clone()),
            None => None,
        }
    }
}

#[derive(Clone, Debug, PartialEq, Eq)]
pub enum TreeChildEntry {
    File(TreeChildFileEntry),
    Directory(TreeChildDirectoryEntry),
}

#[derive(Clone, Debug, PartialEq, Eq)]
pub struct TreeChildFileEntry {
    pub key: Key,
    pub file_metadata: Option<FileMetadata>,
}

#[derive(Clone, Debug, PartialEq, Eq)]
pub struct TreeChildDirectoryEntry {
    pub key: Key,
    pub directory_metadata: Option<DirectoryMetadata>,
}

impl TreeChildEntry {
    pub fn new_file_entry(key: Key, metadata: FileMetadata) -> (r: TreeChildEntry)
        ensures
            r == TreeChildEntry::File(TreeChildFileEntry { key, file_metadata: Some(metadata) }),
    {
        TreeChildEntry::File(TreeChildFileEntry { key, file_metadata: Some(metadata) })
    }

    pub fn new_directory_entry(key: Key, metadata: DirectoryMetadata) -> (r: TreeChildEntry)
        ensures
            r == TreeChildEntry::Directory(
                TreeChildDirectoryEntry { key, directory_metadata: Some(metadata) },
            ),
    {
        TreeChildEntry::Directory(TreeChildDirectoryEntry { key, directory_metadata: Some(metadata) })
    }
}

/// Which parts of the trees a request asks for.
#[derive(Clone, Copy, Debug, PartialEq, Eq)]
pub struct TreeAttributes {
    pub manifest_blob: bool,
    pub parents: bool,
    pub child_metadata: bool,
    pub augmented_trees: bool,
}

/// The value of a field that a serialized request leaves out and that defaults to true.
pub fn get_true() -> (r: bool)
    ensures
        r,
{
    true
}

/// The value of a field that a serialized request leaves out and that defaults to false.
pub fn get_false() -> (r: bool)
    ensures
        !r,
{
    false
}

impl TreeAttributes {
    /// Everything but augmented trees.
    pub fn all() -> (r: TreeAttributes)
        ensures
            r == (TreeAttributes {
                manifest_blob: true,
                parents: true,
                child_metadata: true,
                augmented_trees: false,
            }),
    {
        TreeAttributes { manifest_blob: true, parents: true, child_metadata: true, augmented_trees: false }
    }

    /// Augmented trees only.
    pub fn augmented_trees() -> (r: TreeAttributes)
        ensures
            r == (TreeAttributes {
                manifest_blob: false,
                parents: false,
                child_metadata: false,
                augmented_trees: true,
            }),
    {
        TreeAttributes { manifest_blob: false, parents: false, child_metadata: false, augmented_trees: true }
    }
}

impl Default for TreeAttributes {
    /// The manifest blob and the parents.
    fn default() -> (r: TreeAttributes)
        ensures
            r == (TreeAttributes {
                manifest_blob: true,
                parents: true,
                child_metadata: false,
                augmented_trees: false,
            }),
    {
        TreeAttributes { manifest_blob: true, parents: true, child_metadata: false, augmented_trees: false }
    }
}

#[derive(Clone, Debug, PartialEq, Eq)]
pub struct TreeRequest {
    pub keys: Vec<Key>,
    pub attributes: TreeAttributes,
}

impl TreeRequest {
    /// A request for `keys` with the default attributes.
    pub fn new(keys: Vec<Key>) -> (r: TreeRequest)
        ensures
            r.keys@ == keys@,
            r.attributes == (TreeAttributes {
                manifest_blob: true,
                parents: true,
                child_metadata: false,
                augmented_trees: false,
            }),
    {
        TreeRequest { keys, attributes: TreeAttributes::default() }
    }
}

#[derive(Clone, Debug, PartialEq, Eq)]
pub struct UploadTreeEntry {
    pub node_id: HgId,
    pub data: Vec<u8>,
    pub parents: Parents,
}

#[derive(Clone, Debug, PartialEq, Eq)]
pub struct UploadTreeRequest {
    pub entry: UploadTreeEntry,
}

#[derive(Clone, Debug, PartialEq, Eq)]
pub struct UploadTreeResponse {
    pub token: UploadToken,
}

} // verus!
