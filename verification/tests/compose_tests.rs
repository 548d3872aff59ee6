use swhid::compose::{compose_tree, keep_name, FsNode};
use swhid::directory::TreeObject;

fn file(name: &[u8], mode: u32, data: &[u8]) -> FsNode {
    FsNode::File { name: name.to_vec(), mode, data: data.to_vec() }
}

fn symlink(name: &[u8], target: &[u8]) -> FsNode {
    FsNode::Symlink { name: name.to_vec(), target: target.to_vec() }
}

fn dir(name: &[u8], children: Vec<FsNode>) -> FsNode {
    FsNode::Dir { name: name.to_vec(), children }
}

fn id_of(obj: &mut TreeObject) -> Vec<u8> {
    obj.swhid().object_id().clone()
}

#[test]
fn test_compose_single_file_tree() {
    // One file `test.txt` holding `test`: the root directory's identifier
    // is fixed, and both objects come out, root first.
    let root = dir(b"root", vec![file(b"test.txt", 0o100644, b"test")]);
    let mut objects = compose_tree(&root, &[], b"root".to_vec());
    assert_eq!(objects.len(), 2);
    assert!(matches!(objects[0].1, TreeObject::Directory(_)));
    assert_eq!(objects[0].0, b"root".to_vec());
    assert_eq!(objects[1].0, b"root/test.txt".to_vec());
    assert_eq!(
        id_of(&mut objects[0].1),
        hex::decode("095a057d4a651ec412d06b59e32e9b02871592d5").unwrap()
    );
    assert_eq!(
        id_of(&mut objects[1].1),
        hex::decode("30d74d258442c7c65512eafab474568dd706c430").unwrap()
    );
}

#[test]
fn test_compose_empty_directory() {
    let root = dir(b"empty", vec![]);
    let mut objects = compose_tree(&root, &[], b"empty".to_vec());
    assert_eq!(objects.len(), 1);
    assert_eq!(
        id_of(&mut objects[0].1),
        hex::decode("4b825dc642cb6eb9a060e54bf8d69288fbee4904").unwrap()
    );
}

#[test]
fn test_compose_nested_tree() {
    // Children are hashed before their parent: the subdirectory's
    // identifier feeds the root's entry list.
    let root = dir(
        b"root",
        vec![
            file(b"a.txt", 0o100644, b"a content"),
            dir(b"sub", vec![file(b"b.txt", 0o100644, b"b")]),
        ],
    );
    let mut objects = compose_tree(&root, &[], b"root".to_vec());
    // root dir, a.txt, sub dir, b.txt
    assert_eq!(objects.len(), 4);
    assert_eq!(
        id_of(&mut objects[0].1),
        hex::decode("ab08babc72066580935600bb3d53d1048776c8a1").unwrap()
    );
    let sub_pos = objects.iter().position(|(p, _)| p == &b"root/sub".to_vec()).unwrap();
    assert_eq!(
        id_of(&mut objects[sub_pos].1),
        hex::decode("bc4d1181aca5a33673d7c5d4c209d09ce1cfabd7").unwrap()
    );
}

#[test]
fn test_compose_executable_classification() {
    // Any execute bit turns a file entry into mode 100755.
    let root = dir(
        b"root",
        vec![
            file(b"script.sh", 0o100755, b"#!/bin/bash"),
            file(b"normal.txt", 0o100644, b"normal file"),
        ],
    );
    let mut objects = compose_tree(&root, &[], b"root".to_vec());
    assert_eq!(
        id_of(&mut objects[0].1),
        hex::decode("2668c180f96b1a8d67d8c72a01b160dd04512122").unwrap()
    );
}

#[test]
fn test_compose_symlink_hashes_target_path() {
    // A symlink entry's target is the content hash of the raw link-target
    // path bytes, as if they were file content.
    let root = dir(
        b"root",
        vec![
            file(b"target.txt", 0o100644, b"target content"),
            symlink(b"link.txt", b"target.txt"),
        ],
    );
    let mut objects = compose_tree(&root, &[], b"root".to_vec());
    assert_eq!(
        id_of(&mut objects[0].1),
        hex::decode("e6cf9068b8b659640d5e0d36197370116792a405").unwrap()
    );
    let link_pos = objects.iter().position(|(p, _)| p == &b"root/link.txt".to_vec()).unwrap();
    assert_eq!(
        id_of(&mut objects[link_pos].1),
        hex::decode("4cbb553f3f4ac2ee7b01ff6c951d6bf583c39c15").unwrap()
    );
}

#[test]
fn test_compose_skips_hidden_and_excluded() {
    // Hidden names and excluded patterns vanish from the composed tree:
    // the root hashes as if it held only the kept file.
    let patterns = vec!["node_modules".to_string()];
    let root = dir(
        b"root",
        vec![
            file(b"kept.txt", 0o100644, b"keep"),
            file(b".hidden", 0o100644, b"x"),
            dir(b"node_modules", vec![file(b"f", 0o100644, b"f")]),
        ],
    );
    let mut objects = compose_tree(&root, &patterns, b"root".to_vec());
    assert_eq!(objects.len(), 2);
    assert_eq!(
        id_of(&mut objects[0].1),
        hex::decode("627afe5e76ae4f9c111ae8d292920a683154c5ab").unwrap()
    );
    assert!(keep_name(&b"kept.txt".to_vec(), &patterns));
    assert!(!keep_name(&b".hidden".to_vec(), &patterns));
    assert!(!keep_name(&b"node_modules".to_vec(), &patterns));
}

#[test]
fn test_compose_rerun_reproduces_identifiers() {
    // Running the composer twice on an unmodified tree yields identical
    // identifiers for every object.
    let make = || {
        dir(
            b"root",
            vec![
                file(b"a.txt", 0o100644, b"a content"),
                dir(b"sub", vec![file(b"b.txt", 0o100644, b"b")]),
                symlink(b"l", b"a.txt"),
            ],
        )
    };
    let t1 = make();
    let t2 = make();
    let o1 = compose_tree(&t1, &[], b"root".to_vec());
    let o2 = compose_tree(&t2, &[], b"root".to_vec());
    assert_eq!(o1.len(), o2.len());
    for (a, b) in o1.into_iter().zip(o2.into_iter()) {
        let (pa, mut oa) = a;
        let (pb, mut ob) = b;
        assert_eq!(pa, pb);
        assert_eq!(oa.swhid(), ob.swhid());
    }
}

#[test]
fn test_compose_child_order_irrelevant() {
    // The same children, enumerated in a different order, compose to the
    // same directory identifier.
    let t1 = dir(
        b"root",
        vec![file(b"a", 0o100644, b"1"), file(b"b", 0o100644, b"2")],
    );
    let t2 = dir(
        b"root",
        vec![file(b"b", 0o100644, b"2"), file(b"a", 0o100644, b"1")],
    );
    let mut o1 = compose_tree(&t1, &[], b"root".to_vec());
    let mut o2 = compose_tree(&t2, &[], b"root".to_vec());
    assert_eq!(id_of(&mut o1[0].1), id_of(&mut o2[0].1));
}
