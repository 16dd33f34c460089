use dag::tree::{
    get_false, get_true, DirectoryMetadata, FileMetadata, HgId, InvalidHgId, Key, Parents,
    TreeAttributes, TreeChildDirectoryEntry, TreeChildEntry, TreeChildFileEntry, TreeError,
    TreeRequest, UploadToken, UploadTreeEntry, UploadTreeRequest, UploadTreeResponse,
};

fn key(path: &str) -> Key {
    Key { path: path.to_string(), hgid: HgId { bytes: [7; 20] } }
}

#[test]
fn attribute_presets() {
    let all = TreeAttributes::all();
    assert!(all.manifest_blob && all.parents && all.child_metadata && !all.augmented_trees);
    let aug = TreeAttributes::augmented_trees();
    assert!(!aug.manifest_blob && !aug.parents && !aug.child_metadata && aug.augmented_trees);
    let d = TreeAttributes::default();
    assert!(d.manifest_blob && d.parents && !d.child_metadata && !d.augmented_trees);
    assert!(get_true());
    assert!(!get_false());
    let req = TreeRequest::new(vec![key("a")]);
    assert_eq!(req.attributes, d);
    assert_eq!(req.keys, vec![key("a")]);
}

#[test]
fn child_entries_carry_metadata() {
    let meta = FileMetadata { size: Some(3), ..Default::default() };
    let f = TreeChildEntry::new_file_entry(key("f"), meta.clone());
    assert_eq!(
        f,
        TreeChildEntry::File(TreeChildFileEntry { key: key("f"), file_metadata: Some(meta) })
    );
    let dm = DirectoryMetadata { child_files_count: Some(2), ..Default::default() };
    let d = TreeChildEntry::new_directory_entry(key("d"), dm.clone());
    assert_eq!(
        d,
        TreeChildEntry::Directory(TreeChildDirectoryEntry {
            key: key("d"),
            directory_metadata: Some(dm)
        })
    );
}

#[test]
fn tree_error_data() {
    let bad = InvalidHgId {
        expected: HgId { bytes: [1; 20] },
        computed: HgId { bytes: [2; 20] },
        data: vec![1, 2, 3],
        parents: Parents::Root,
    };
    assert_eq!(TreeError::Corrupt(bad.clone()).data(), Some(vec![1, 2, 3]));
    assert_eq!(TreeError::MaybeHybridManifest(bad).data(), Some(vec![1, 2, 3]));
    assert_eq!(TreeError::MissingField("data".to_string()).data(), None);
}

#[test]
fn upload_types() {
    let entry = UploadTreeEntry { node_id: HgId { bytes: [0; 20] }, data: vec![9], parents: Parents::Root };
    let req = UploadTreeRequest { entry: entry.clone() };
    assert_eq!(req.entry, entry);
    let resp = UploadTreeResponse { token: UploadToken { id: vec![1], signature: vec![] } };
    assert_eq!(resp.token.id, vec![1]);
}

fn entry(path: &str) -> dag::tree::TreeEntry {
    let mut e = dag::tree::TreeEntry::new(key(path));
    e.with_data(Some(vec![1, 2])).with_parents(Some(Parents::Root));
    e
}

#[test]
fn entry_builders() {
    let mut e = dag::tree::TreeEntry::new(key("p"));
    assert_eq!(e.data_unchecked(), None);
    e.with_data(Some(vec![5])).with_children(Some(vec![]));
    assert_eq!(e.data_unchecked(), Some(vec![5]));
    assert_eq!(e.children, Some(vec![]));
    assert_eq!(e.key(), &key("p"));
}

#[test]
fn entry_data_checked() {
    let good = HgId { bytes: [7; 20] };
    let other = HgId { bytes: [8; 20] };
    assert_eq!(entry("p").data_checked(good), Ok(vec![1, 2]));
    match entry("p").data_checked(other) {
        Err(TreeError::Corrupt(e)) => {
            assert_eq!(e.expected, good);
            assert_eq!(e.computed, other);
            assert_eq!(e.data, vec![1, 2]);
        }
        r => panic!("unexpected {:?}", r),
    }
    assert!(matches!(entry("").data_checked(other), Err(TreeError::MaybeHybridManifest(_))));
    let no_data = dag::tree::TreeEntry::new(key("p"));
    assert_eq!(no_data.data_checked(good), Err(TreeError::MissingField("data".to_string())));
    let mut no_parents = dag::tree::TreeEntry::new(key("p"));
    no_parents.with_data(Some(vec![1]));
    assert_eq!(no_parents.data_checked(good), Err(TreeError::MissingField("parents".to_string())));
}

#[test]
fn entry_data_accepts_hybrid_manifests() {
    let other = HgId { bytes: [8; 20] };
    assert_eq!(entry("").data(other), Ok(vec![1, 2]));
    assert!(matches!(entry("p").data(other), Err(TreeError::Corrupt(_))));
    assert_eq!(entry("p").data(HgId { bytes: [7; 20] }), Ok(vec![1, 2]));
}
