use swhid::content::Content;
use swhid::directory::{
    Directory, DirectoryEntry, EntryType, Permissions, should_exclude_str, TreeObject,
};
use swhid::swhid::ObjectType;

fn file_entry(name: &[u8], target: Vec<u8>) -> DirectoryEntry {
    DirectoryEntry::new(name.to_vec(), EntryType::File, Permissions::File, target)
}

fn dir_entry(name: &[u8], target: Vec<u8>) -> DirectoryEntry {
    DirectoryEntry::new(name.to_vec(), EntryType::Directory, Permissions::Directory, target)
}

#[test]
fn test_directory_single_file_known_hash() {
    // A directory holding one file `test.txt` with bytes `test` has a
    // fixed identifier, whichever way the content object was authored.
    let via_content = Content::from_data(b"test".to_vec());
    let mut d1 = Directory::new(vec![file_entry(b"test.txt", via_content.sha1_git().clone())]);
    let via_hash = swhid::hash::sha1_git_hash(b"test");
    let mut d2 = Directory::new(vec![file_entry(b"test.txt", via_hash)]);
    let expected = hex::decode("095a057d4a651ec412d06b59e32e9b02871592d5").unwrap();
    assert_eq!(d1.compute_hash(), expected);
    assert_eq!(d2.compute_hash(), expected);
    assert_eq!(d1.swhid().object_type(), ObjectType::Directory);
}

#[test]
fn test_empty_directory_fixed_hash() {
    let mut d = Directory::new(vec![]);
    assert_eq!(d.compute_hash(), hex::decode("4b825dc642cb6eb9a060e54bf8d69288fbee4904").unwrap());
}

#[test]
fn test_directory_insertion_order_irrelevant() {
    // The same entries, handed over in any order, yield the identical
    // identifier.
    let t1 = vec![1u8; 20];
    let t2 = vec![2u8; 20];
    let t3 = vec![3u8; 20];
    let mut d1 = Directory::new(vec![
        file_entry(b"a.txt", t1.clone()),
        dir_entry(b"sub", t2.clone()),
        file_entry(b"z.txt", t3.clone()),
    ]);
    let mut d2 = Directory::new(vec![
        file_entry(b"z.txt", t3),
        file_entry(b"a.txt", t1),
        dir_entry(b"sub", t2),
    ]);
    assert_eq!(d1.compute_hash(), d2.compute_hash());
}

#[test]
fn test_directory_rerun_same_hash() {
    // Computing twice on an unchanged directory is idempotent, as is
    // rebuilding from the same entries.
    let entries = || vec![file_entry(b"f", vec![9u8; 20]), dir_entry(b"d", vec![8u8; 20])];
    let mut d = Directory::new(entries());
    let h1 = d.compute_hash();
    let h2 = d.compute_hash();
    assert_eq!(h1, h2);
    let mut again = Directory::new(entries());
    assert_eq!(again.compute_hash(), h1);
}

#[test]
fn test_directory_sort_order_git_style() {
    // A directory named like a file prefix sorts as if it had a trailing
    // slash: `b.txt` comes before the directory `b`.
    let mut d = Directory::new(vec![
        dir_entry(b"b", vec![1u8; 20]),
        file_entry(b"b.txt", vec![2u8; 20]),
        file_entry(b"a.txt", vec![3u8; 20]),
    ]);
    let names: Vec<Vec<u8>> = d.entries().iter().map(|e| e.name.clone()).collect();
    assert_eq!(names, vec![b"a.txt".to_vec(), b"b.txt".to_vec(), b"b".to_vec()]);
    let hash = d.compute_hash();
    assert_eq!(hash.len(), 20);
}

#[test]
fn test_permissions_from_mode() {
    assert_eq!(Permissions::from_mode(0o040755), Permissions::Directory);
    assert_eq!(Permissions::from_mode(0o120777), Permissions::Symlink);
    assert_eq!(Permissions::from_mode(0o100755), Permissions::Executable);
    assert_eq!(Permissions::from_mode(0o100744), Permissions::Executable);
    assert_eq!(Permissions::from_mode(0o100644), Permissions::File);
    assert_eq!(Permissions::File.as_octal(), 0o100644);
    assert_eq!(Permissions::Executable.as_octal(), 0o100755);
    assert_eq!(Permissions::Symlink.as_octal(), 0o120000);
    assert_eq!(Permissions::Directory.as_octal(), 0o040000);
}

#[test]
fn test_entry_type_names() {
    assert_eq!(EntryType::File.as_str(), "file");
    assert_eq!(EntryType::Directory.as_str(), "dir");
    assert_eq!(EntryType::Symlink.as_str(), "symlink");
}

#[test]
fn test_should_exclude_matches_substrings() {
    let patterns = vec!["node_modules".to_string(), ".git".to_string()];
    assert!(should_exclude_str("node_modules", &patterns));
    assert!(should_exclude_str("sub_node_modules_dir", &patterns));
    assert!(should_exclude_str("a.git", &patterns));
    assert!(!should_exclude_str("src", &patterns));
    assert!(!should_exclude_str("", &patterns));
    assert!(!should_exclude_str("anything", &Vec::new()));
    assert!(Directory::should_exclude(b"node_modules", &patterns));
    assert!(!Directory::should_exclude(b"lib", &patterns));
}

#[test]
fn test_content_from_data() {
    let content = Content::from_data(b"Hello, World!".to_vec());
    assert_eq!(
        content.sha1_git(),
        &hex::decode("b45ef6fec89518d314f546fd6c3025367b721684").unwrap()
    );
    let swhid = content.swhid();
    assert_eq!(swhid.object_type(), ObjectType::Content);
    assert_eq!(swhid.encode(), "swh:1:cnt:b45ef6fec89518d314f546fd6c3025367b721684");
    assert_eq!(content.length(), 13);
}

#[test]
fn test_content_max_size() {
    assert!(Content::from_data_with_max_size(vec![0u8; 10], 10).is_ok());
    assert!(Content::from_data_with_max_size(vec![0u8; 11], 10).is_err());
}

#[test]
fn test_tree_object_swhid() {
    let mut c = TreeObject::Content(Content::from_data(b"x".to_vec()));
    assert_eq!(c.swhid().object_type(), ObjectType::Content);
    let mut d = TreeObject::Directory(Directory::new(vec![]));
    assert_eq!(
        d.swhid().encode(),
        "swh:1:dir:4b825dc642cb6eb9a060e54bf8d69288fbee4904"
    );
}

#[test]
fn test_directory_path_untracked() {
    let d = Directory::new(vec![]);
    assert!(d.path().is_none());
}
