//! The recursive tree composer: a filesystem subtree held as plain
//! values, the identifier of every node as a spec function, and the
//! bottom-up composition that realizes it.
//!
//! The Merkle discipline — a directory is hashed only after every
//! immediate child's identifier is known — is the very shape of
//! `spec_node_id`: a directory's identifier is defined over its kept
//! children's identifiers.  `compose_tree` is proved to emit objects
//! carrying exactly those identifiers, so re-running it on an unchanged
//! tree reproduces every identifier by definition.

use vstd::prelude::*;

use crate::content::Content;
use crate::directory::{
    dir_hash, entry_sort, models_of, spec_should_exclude, Directory, DirectoryEntry, EntryModel,
    EntryType, Permissions, TreeObject,
};
use crate::encoding::push_bytes;
use crate::hash::content_hash;

verus! {

/// A filesystem subtree as plain values: file bytes with their mode
/// bits, raw symlink-target bytes (present when links are not being
/// followed; a followed link arrives already dereferenced), and
/// directories with their children in enumeration order.
pub enum FsNode {
    File { name: Vec<u8>, mode: u32, data: Vec<u8> },
    Symlink { name: Vec<u8>, target: Vec<u8> },
    Dir { name: Vec<u8>, children: Vec<FsNode> },
}

/// The raw name of a node.
pub open spec fn node_name(n: FsNode) -> Seq<u8> {
    match n {
        FsNode::File { name, .. } => name@,
        FsNode::Symlink { name, .. } => name@,
        FsNode::Dir { name, .. } => name@,
    }
}

/// The entry kind a node yields in its parent's listing.
pub open spec fn node_entry_type(n: FsNode) -> EntryType {
    match n {
        FsNode::File { .. } => EntryType::File,
        FsNode::Symlink { .. } => EntryType::Symlink,
        FsNode::Dir { .. } => EntryType::Directory,
    }
}

/// The permission class a node yields: directories and symlinks are
/// fixed; a file is executable when any execute bit of its mode is set.
pub open spec fn node_permissions(n: FsNode) -> Permissions {
    match n {
        FsNode::File { mode, .. } => if mode & 0o111 != 0 {
            Permissions::Executable
        } else {
            Permissions::File
        },
        FsNode::Symlink { .. } => Permissions::Symlink,
        FsNode::Dir { .. } => Permissions::Directory,
    }
}

/// Whether a child is kept: names starting with a dot are always
/// skipped, and exclusion patterns match by substring.
pub open spec fn spec_keep(name: Seq<u8>, exclude: Seq<Seq<char>>) -> bool {
    !(name.len() > 0 && name[0] == 46) && !spec_should_exclude(name, exclude)
}

/// The identifier of a node: the content hash of a file's bytes, the
/// content hash of a raw link target, or — for a directory — the tree
/// hash of its kept children's entries in canonical order, each entry's
/// target being that child's own identifier.
pub open spec fn spec_node_id(n: FsNode, exclude: Seq<Seq<char>>) -> Seq<u8>
    decreases n,
{
    match n {
        FsNode::File { data, .. } => content_hash(data@),
        FsNode::Symlink { target, .. } => content_hash(target@),
        FsNode::Dir { children, .. } => dir_hash(entry_sort(child_models(children@, exclude))),
    }
}

/// The entry models of the kept children, in enumeration order.
pub open spec fn child_models(cs: Seq<FsNode>, exclude: Seq<Seq<char>>) -> Seq<EntryModel>
    decreases cs,
{
    if cs.len() == 0 {
        Seq::empty()
    } else {
        let head = if spec_keep(node_name(cs.first()), exclude) {
            seq![
                EntryModel {
                    name: node_name(cs.first()),
                    entry_type: node_entry_type(cs.first()),
                    permissions: node_permissions(cs.first()),
                    target: spec_node_id(cs.first(), exclude),
                },
            ]
        } else {
            Seq::<EntryModel>::empty()
        };
        head + child_models(cs.drop_first(), exclude)
    }
}

/// Appending one child extends the kept-entry models by at most one.
pub proof fn lemma_child_models_push(cs: Seq<FsNode>, n: FsNode, exclude: Seq<Seq<char>>)
    ensures
        child_models(cs.push(n), exclude) == child_models(cs, exclude) + (if spec_keep(
            node_name(n),
            exclude,
        ) {
            seq![
                EntryModel {
                    name: node_name(n),
                    entry_type: node_entry_type(n),
                    permissions: node_permissions(n),
                    target: spec_node_id(n, exclude),
                },
            ]
        } else {
            Seq::<EntryModel>::empty()
        }),
    decreases cs.len(),
{
    let w = cs.push(n);
    let tail = if spec_keep(node_name(n), exclude) {
        seq![
            EntryModel {
                name: node_name(n),
                entry_type: node_entry_type(n),
                permissions: node_permissions(n),
                target: spec_node_id(n, exclude),
            },
        ]
    } else {
        Seq::<EntryModel>::empty()
    };
    if cs.len() == 0 {
        assert(w.first() == n);
        assert(w.drop_first() =~= Seq::<FsNode>::empty());
        assert(child_models(w.drop_first(), exclude) == Seq::<EntryModel>::empty());
        assert(child_models(cs, exclude) == Seq::<EntryModel>::empty());
        assert(child_models(w, exclude) =~= child_models(cs, exclude) + tail);
    } else {
        assert(w.first() == cs.first());
        assert(w.drop_first() =~= cs.drop_first().push(n));
        lemma_child_models_push(cs.drop_first(), n, exclude);
        assert(child_models(w, exclude) =~= child_models(cs, exclude) + tail);
    }
}

/// The objects a subtree composes to, as (path, identifier) pairs: the
/// node's own object first under the given prefix, then the kept
/// children's objects in enumeration order under slash-joined paths.
pub open spec fn spec_objects(n: FsNode, exclude: Seq<Seq<char>>, prefix: Seq<u8>) -> Seq<
    (Seq<u8>, Seq<u8>),
>
    decreases n,
{
    match n {
        FsNode::Dir { children, .. } => seq![(prefix, spec_node_id(n, exclude))]
            + spec_children_objects(children@, exclude, prefix),
        _ => seq![(prefix, spec_node_id(n, exclude))],
    }
}

/// The objects of the kept children, in enumeration order.
pub open spec fn spec_children_objects(
    cs: Seq<FsNode>,
    exclude: Seq<Seq<char>>,
    prefix: Seq<u8>,
) -> Seq<(Seq<u8>, Seq<u8>)>
    decreases cs,
{
    if cs.len() == 0 {
        Seq::empty()
    } else {
        (if spec_keep(node_name(cs.first()), exclude) {
            spec_objects(cs.first(), exclude, prefix + seq![47u8] + node_name(cs.first()))
        } else {
            Seq::<(Seq<u8>, Seq<u8>)>::empty()
        }) + spec_children_objects(cs.drop_first(), exclude, prefix)
    }
}

/// Appending one child appends its objects, when it is kept.
pub proof fn lemma_children_objects_push(
    cs: Seq<FsNode>,
    n: FsNode,
    exclude: Seq<Seq<char>>,
    prefix: Seq<u8>,
)
    ensures
        spec_children_objects(cs.push(n), exclude, prefix) == spec_children_objects(
            cs,
            exclude,
            prefix,
        ) + (if spec_keep(node_name(n), exclude) {
            spec_objects(n, exclude, prefix + seq![47u8] + node_name(n))
        } else {
            Seq::<(Seq<u8>, Seq<u8>)>::empty()
        }),
    decreases cs.len(),
{
    let w = cs.push(n);
    let tail = if spec_keep(node_name(n), exclude) {
        spec_objects(n, exclude, prefix + seq![47u8] + node_name(n))
    } else {
        Seq::<(Seq<u8>, Seq<u8>)>::empty()
    };
    if cs.len() == 0 {
        assert(w.first() == n);
        assert(w.drop_first() =~= Seq::<FsNode>::empty());
        assert(spec_children_objects(w.drop_first(), exclude, prefix) == Seq::<(
            Seq<u8>,
            Seq<u8>,
        )>::empty());
        assert(spec_children_objects(cs, exclude, prefix) == Seq::<(Seq<u8>, Seq<u8>)>::empty());
        assert(spec_children_objects(w, exclude, prefix) =~= spec_children_objects(
            cs,
            exclude,
            prefix,
        ) + tail);
    } else {
        assert(w.first() == cs.first());
        assert(w.drop_first() =~= cs.drop_first().push(n));
        lemma_children_objects_push(cs.drop_first(), n, exclude, prefix);
        assert(spec_children_objects(w, exclude, prefix) =~= spec_children_objects(
            cs,
            exclude,
            prefix,
        ) + tail);
    }
}

/// The (path, identifier) pairs carried by a composed object list.
pub open spec fn emitted_ids(r: Seq<(Vec<u8>, TreeObject)>) -> Seq<(Seq<u8>, Seq<u8>)> {
    r.map_values(|p: (Vec<u8>, TreeObject)| (p.0@, p.1.object_id()))
}

/// Decides whether a child name is kept under the exclusion rules.
pub fn keep_name(name: &Vec<u8>, exclude_patterns: &[String]) -> (r: bool)
    ensures
        r == spec_keep(name@, exclude_patterns.deep_view()),
{
    if name.len() > 0 && name[0] == 46 {
        return false;
    }
    !Directory::should_exclude(name.as_slice(), exclude_patterns)
}

/// The raw name of a node.
pub fn node_name_bytes(n: &FsNode) -> (r: &Vec<u8>)
    ensures
        r@ == node_name(*n),
{
    match n {
        FsNode::File { name, .. } => name,
        FsNode::Symlink { name, .. } => name,
        FsNode::Dir { name, .. } => name,
    }
}

/// Composes one node: emits its object (first) and its descendants'
/// objects (after it), and returns the node's identifier.
fn compose_node(
    node: &FsNode,
    exclude_patterns: &[String],
    path: Vec<u8>,
    out: &mut Vec<(Vec<u8>, TreeObject)>,
) -> (id: Vec<u8>)
    ensures
        id@ == spec_node_id(*node, exclude_patterns.deep_view()),
        id@.len() == 20,
        final(out)@.len() > old(out)@.len(),
        forall|k: int| 0 <= k < old(out)@.len() ==> final(out)@[k] == old(out)@[k],
        forall|k: int|
            old(out)@.len() <= k < final(out)@.len() ==> (#[trigger] final(out)@[k]).1.wf(),
        final(out)@[old(out)@.len() as int].0@ == path@,
        final(out)@[old(out)@.len() as int].1.object_id() == spec_node_id(
            *node,
            exclude_patterns.deep_view(),
        ),
        final(out)@[old(out)@.len() as int].1 is Directory <==> *node is Dir,
        emitted_ids(final(out)@) == emitted_ids(old(out)@) + spec_objects(
            *node,
            exclude_patterns.deep_view(),
            path@,
        ),
    decreases node,
{
    let ghost ex = exclude_patterns.deep_view();
    match node {
        FsNode::File { data, .. } => {
            let c = Content::from_data(data.clone());
            let id = c.sha1_git().clone();
            let ghost base = out@;
            out.push((path, TreeObject::Content(c)));
            assert(emitted_ids(out@) =~= emitted_ids(base) + spec_objects(*node, ex, path@));
            id
        }
        FsNode::Symlink { target, .. } => {
            let c = Content::from_data(target.clone());
            let id = c.sha1_git().clone();
            let ghost base = out@;
            out.push((path, TreeObject::Content(c)));
            assert(emitted_ids(out@) =~= emitted_ids(base) + spec_objects(*node, ex, path@));
            id
        }
        FsNode::Dir { children, .. } => {
            let mut entries: Vec<DirectoryEntry> = Vec::new();
            let mut child_out: Vec<(Vec<u8>, TreeObject)> = Vec::new();
            let n = children.len();
            assert(children@.take(0) =~= Seq::<FsNode>::empty());
            assert(models_of(entries@) =~= child_models(children@.take(0), ex));
            assert(emitted_ids(child_out@) =~= spec_children_objects(
                children@.take(0),
                ex,
                path@,
            ));
            for i in 0..n
                invariant
                    n == children@.len(),
                    ex == exclude_patterns.deep_view(),
                    *node matches FsNode::Dir { children: cref, .. } && cref@ == children@,
                    models_of(entries@) == child_models(children@.take(i as int), ex),
                    emitted_ids(child_out@) == spec_children_objects(
                        children@.take(i as int),
                        ex,
                        path@,
                    ),
                    forall|k: int|
                        0 <= k < child_out@.len() ==> (#[trigger] child_out@[k]).1.wf(),
            {
                let child = &children[i];
                let name = node_name_bytes(child);
                if keep_name(name, exclude_patterns) {
                    let mut child_path = path.clone();
                    child_path.push(47);
                    push_bytes(&mut child_path, name.as_slice());
                    assert(child_path@ =~= path@ + seq![47u8] + node_name(children@[i as int]));
                    let child_id = compose_node(child, exclude_patterns, child_path, &mut child_out);
                    let entry_type = match child {
                        FsNode::File { .. } => EntryType::File,
                        FsNode::Symlink { .. } => EntryType::Symlink,
                        FsNode::Dir { .. } => EntryType::Directory,
                    };
                    let permissions = match child {
                        FsNode::File { mode, .. } => if *mode & 0o111 != 0 {
                            Permissions::Executable
                        } else {
                            Permissions::File
                        },
                        FsNode::Symlink { .. } => Permissions::Symlink,
                        FsNode::Dir { .. } => Permissions::Directory,
                    };
                    entries.push(DirectoryEntry::new(name.clone(), entry_type, permissions, child_id));
                }
                proof {
                    lemma_child_models_push(children@.take(i as int), children@[i as int], ex);
                    lemma_children_objects_push(children@.take(i as int), children@[i as int], ex, path@);
                    assert(children@.take(i + 1) =~= children@.take(i as int).push(
                        children@[i as int],
                    ));
                    assert(models_of(entries@) =~= child_models(children@.take(i + 1), ex));
                    assert(emitted_ids(child_out@) =~= spec_children_objects(
                        children@.take(i + 1),
                        ex,
                        path@,
                    ));
                }
            }
            assert(children@.take(n as int) =~= children@);
            let mut d = Directory::new(entries);
            let id = d.compute_hash();
            assert(id@ == spec_node_id(*node, ex));
            let ghost base = out@;
            let ghost child_objects = child_out@;
            out.push((path, TreeObject::Directory(d)));
            out.append(&mut child_out);
            assert(out@ =~= base + seq![out@[base.len() as int]] + child_objects);
            assert(forall|k: int| 0 <= k < base.len() ==> out@[k] == base[k]);
            assert(emitted_ids(out@) =~= emitted_ids(base) + spec_objects(*node, ex, path@));
            id
        }
    }
}

/// Composes a whole subtree: yields every content and directory object
/// with correctly composed identifiers, the root's object first under
/// the given path, descendants after it under slash-joined paths.
///
/// Every emitted object is well-formed, and the emitted (path,
/// identifier) pairs are exactly `spec_objects` of the tree — a function
/// of the tree and the exclusion patterns alone — so composing an
/// unchanged tree again reproduces the identical identifier for every
/// object.
pub fn compose_tree(root: &FsNode, exclude_patterns: &[String], path: Vec<u8>) -> (r: Vec<
    (Vec<u8>, TreeObject),
>)
    ensures
        r@.len() >= 1,
        forall|k: int| 0 <= k < r@.len() ==> (#[trigger] r@[k]).1.wf(),
        r@[0].0@ == path@,
        r@[0].1.object_id() == spec_node_id(*root, exclude_patterns.deep_view()),
        r@[0].1 is Directory <==> *root is Dir,
        emitted_ids(r@) == spec_objects(*root, exclude_patterns.deep_view(), path@),
{
    let mut out: Vec<(Vec<u8>, TreeObject)> = Vec::new();
    let _id = compose_node(root, exclude_patterns, path, &mut out);
    assert(emitted_ids(out@) =~= spec_objects(*root, exclude_patterns.deep_view(), path@));
    out
}

} // verus!
