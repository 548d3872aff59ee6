//! Directory objects: entries in the canonical tree order, the tree
//! manifest, and the order-independence of the resulting hash.

use vstd::prelude::*;

use vstd::multiset::Multiset;

use crate::encoding::{
    bytes_eq, bytes_lt, contains_bytes, has_substring, lemma_lex_lt_trans, lemma_lex_trichotomy,
    lex_le, push_bytes,
};
use crate::hash::{git_object_hash, hash_git_object};
use crate::swhid::{ObjectType, Swhid};

verus! {

broadcast use vstd::seq_lib::group_seq_lib_default, vstd::seq_lib::group_to_multiset_ensures,
    vstd::multiset::group_multiset_axioms, vstd::multiset::group_multiset_properties;

// ---------------------------------------------------------------------------
// Entry kinds and permissions
// ---------------------------------------------------------------------------

/// What a directory entry points at.
#[derive(Debug, Clone, Copy, PartialEq, Eq, Structural)]
pub enum EntryType {
    File,
    Directory,
    Symlink,
}

impl EntryType {
    /// A short name for the entry kind.
    pub fn as_str(&self) -> (r: &'static str)
        ensures
            r@ == entry_type_name(*self),
    {
        match self {
            EntryType::File => {
                proof {
                    reveal_strlit("file");
                }
                "file"
            }
            EntryType::Directory => {
                proof {
                    reveal_strlit("dir");
                }
                "dir"
            }
            EntryType::Symlink => {
                proof {
                    reveal_strlit("symlink");
                }
                "symlink"
            }
        }
    }
}

/// The short name of each entry kind.
pub open spec fn entry_type_name(t: EntryType) -> Seq<char> {
    match t {
        EntryType::File => seq!['f', 'i', 'l', 'e'],
        EntryType::Directory => seq!['d', 'i', 'r'],
        EntryType::Symlink => seq!['s', 'y', 'm', 'l', 'i', 'n', 'k'],
    }
}

/// The four git-style permission classes of a directory entry.
#[derive(Debug, Clone, Copy, PartialEq, Eq, Structural)]
pub enum Permissions {
    File,
    Executable,
    Symlink,
    Directory,
}

/// The permission class read off raw mode bits: the file-type bits pick
/// directories and symlinks, any execute bit makes a file executable.
pub open spec fn perm_from_mode(mode: u32) -> Permissions {
    if mode & 0o170000 == 0o040000 {
        Permissions::Directory
    } else if mode & 0o170000 == 0o120000 {
        Permissions::Symlink
    } else if mode & 0o111 != 0 {
        Permissions::Executable
    } else {
        Permissions::File
    }
}

/// The numeric mode of each permission class.
pub open spec fn perm_octal(p: Permissions) -> u32 {
    match p {
        Permissions::File => 0o100644,
        Permissions::Executable => 0o100755,
        Permissions::Symlink => 0o120000,
        Permissions::Directory => 0o040000,
    }
}

/// The octal ASCII rendering of each permission class, without leading
/// zeros, as it appears in a tree manifest.
pub open spec fn perm_bytes(p: Permissions) -> Seq<u8> {
    match p {
        Permissions::File => seq![49u8, 48u8, 48u8, 54u8, 52u8, 52u8],
        Permissions::Executable => seq![49u8, 48u8, 48u8, 55u8, 53u8, 53u8],
        Permissions::Symlink => seq![49u8, 50u8, 48u8, 48u8, 48u8, 48u8],
        Permissions::Directory => seq![52u8, 48u8, 48u8, 48u8, 48u8],
    }
}

impl Permissions {
    /// Classifies raw on-disk mode bits.
    pub fn from_mode(mode: u32) -> (r: Self)
        ensures
            r == perm_from_mode(mode),
    {
        if mode & 0o170000 == 0o040000 {
            Permissions::Directory
        } else if mode & 0o170000 == 0o120000 {
            Permissions::Symlink
        } else if mode & 0o111 != 0 {
            Permissions::Executable
        } else {
            Permissions::File
        }
    }

    /// The numeric mode value.
    pub fn as_octal(&self) -> (r: u32)
        ensures
            r == perm_octal(*self),
    {
        match self {
            Permissions::File => 0o100644,
            Permissions::Executable => 0o100755,
            Permissions::Symlink => 0o120000,
            Permissions::Directory => 0o040000,
        }
    }

    /// The octal ASCII rendering used in tree manifests.
    pub fn octal_bytes(&self) -> (r: Vec<u8>)
        ensures
            r@ == perm_bytes(*self),
    {
        let mut v: Vec<u8> = Vec::new();
        match self {
            Permissions::File => {
                v.push(49);
                v.push(48);
                v.push(48);
                v.push(54);
                v.push(52);
                v.push(52);
            }
            Permissions::Executable => {
                v.push(49);
                v.push(48);
                v.push(48);
                v.push(55);
                v.push(53);
                v.push(53);
            }
            Permissions::Symlink => {
                v.push(49);
                v.push(50);
                v.push(48);
                v.push(48);
                v.push(48);
                v.push(48);
            }
            Permissions::Directory => {
                v.push(52);
                v.push(48);
                v.push(48);
                v.push(48);
                v.push(48);
            }
        }
        assert(v@ =~= perm_bytes(*self));
        v
    }
}

// ---------------------------------------------------------------------------
// Entries and their order
// ---------------------------------------------------------------------------

/// One directory entry: a raw name, a kind, a permission class, and the
/// 20-byte identifier of the referenced object.
#[derive(Debug, Clone)]
pub struct DirectoryEntry {
    pub name: Vec<u8>,
    pub entry_type: EntryType,
    pub permissions: Permissions,
    pub target: Vec<u8>,
}

/// The mathematical model of an entry.
pub ghost struct EntryModel {
    pub name: Seq<u8>,
    pub entry_type: EntryType,
    pub permissions: Permissions,
    pub target: Seq<u8>,
}

impl View for DirectoryEntry {
    type V = EntryModel;

    open spec fn view(&self) -> EntryModel {
        EntryModel {
            name: self.name@,
            entry_type: self.entry_type,
            permissions: self.permissions,
            target: self.target@,
        }
    }
}

impl DirectoryEntry {
    /// Builds an entry pointing at a 20-byte object identifier.
    pub fn new(name: Vec<u8>, entry_type: EntryType, permissions: Permissions, target: Vec<u8>)
        -> (r: Self)
        requires
            target@.len() == 20,
        ensures
            r@ == (EntryModel {
                name: name@,
                entry_type,
                permissions,
                target: target@,
            }),
    {
        DirectoryEntry { name, entry_type, permissions, target }
    }
}

/// The sort key of an entry: its name, with a trailing slash appended only
/// when the entry is a directory.  Ties are raw byte order.
pub open spec fn sort_key(m: EntryModel) -> Seq<u8> {
    if m.entry_type == EntryType::Directory {
        m.name + seq![47u8]
    } else {
        m.name
    }
}

/// The canonical order on entries: lexicographic on sort keys.
pub open spec fn entry_le(a: EntryModel, b: EntryModel) -> bool {
    lex_le(sort_key(a), sort_key(b))
}

/// `entry_le` relates every pair, in one direction or the other.
pub proof fn lemma_entry_le_connected(a: EntryModel, b: EntryModel)
    ensures
        entry_le(a, b) || entry_le(b, a),
{
    lemma_lex_trichotomy(sort_key(a), sort_key(b));
}

/// `entry_le` is transitive.
pub proof fn lemma_entry_le_trans(a: EntryModel, b: EntryModel, c: EntryModel)
    requires
        entry_le(a, b),
        entry_le(b, c),
    ensures
        entry_le(a, c),
{
    if sort_key(a) != sort_key(b) && sort_key(b) != sort_key(c) {
        lemma_lex_lt_trans(sort_key(a), sort_key(b), sort_key(c));
    }
}

/// Whether entries stand in the canonical order.
pub open spec fn entries_sorted(s: Seq<EntryModel>) -> bool {
    forall|i: int, j: int| 0 <= i < j < s.len() ==> entry_le(#[trigger] s[i], #[trigger] s[j])
}

/// The models of a sequence of entries.
pub open spec fn models_of(s: Seq<DirectoryEntry>) -> Seq<EntryModel> {
    s.map_values(|e: DirectoryEntry| e@)
}

/// No two entries share a sort key.
pub open spec fn distinct_keys(s: Seq<EntryModel>) -> bool {
    forall|i: int, j: int|
        0 <= i < j < s.len() ==> sort_key(#[trigger] s[i]) != sort_key(#[trigger] s[j])
}

/// Inserting one entry into a sorted run: it lands after every entry that
/// sorts no later than it, so ties keep their existing order.
pub open spec fn entry_insert(s: Seq<EntryModel>, m: EntryModel) -> Seq<EntryModel>
    decreases s.len(),
{
    if s.len() == 0 {
        seq![m]
    } else if entry_le(s.first(), m) {
        seq![s.first()] + entry_insert(s.drop_first(), m)
    } else {
        seq![m] + s
    }
}

/// The canonical order of a run of entries: each inserted in turn — a
/// stable insertion sort.
pub open spec fn entry_sort(s: Seq<EntryModel>) -> Seq<EntryModel>
    decreases s.len(),
{
    if s.len() == 0 {
        Seq::empty()
    } else {
        entry_insert(entry_sort(s.drop_last()), s.last())
    }
}

/// Splitting an insertion at a scanned prefix that sorts no later than
/// the inserted entry.
pub proof fn lemma_entry_insert_skip(s: Seq<EntryModel>, j: int, m: EntryModel)
    requires
        0 <= j <= s.len(),
        forall|k: int| 0 <= k < j ==> entry_le(#[trigger] s[k], m),
    ensures
        entry_insert(s, m) == s.take(j) + entry_insert(s.skip(j), m),
    decreases j,
{
    if j == 0 {
        assert(s.skip(0) =~= s);
        assert(s.take(0) + entry_insert(s, m) =~= entry_insert(s, m));
    } else {
        assert(entry_le(s.first(), m));
        assert(entry_insert(s, m) == seq![s.first()] + entry_insert(s.drop_first(), m));
        assert(forall|k: int| 0 <= k < j - 1 ==> s.drop_first()[k] == s[k + 1]);
        lemma_entry_insert_skip(s.drop_first(), j - 1, m);
        assert(s.drop_first().skip(j - 1) =~= s.skip(j));
        assert(seq![s.first()] + s.drop_first().take(j - 1) =~= s.take(j));
        assert(entry_insert(s, m) =~= s.take(j) + entry_insert(s.skip(j), m));
    }
}

// ---------------------------------------------------------------------------
// The tree manifest
// ---------------------------------------------------------------------------

/// The manifest bytes of one entry: the octal mode, a space, the raw
/// name, a NUL byte, then the 20 target bytes.
pub open spec fn entry_bytes(m: EntryModel) -> Seq<u8> {
    perm_bytes(m.permissions) + seq![32u8] + m.name + seq![0u8] + m.target
}

/// The manifest of a directory: the entry renderings, concatenated in
/// sequence order.
pub open spec fn manifest_of(s: Seq<EntryModel>) -> Seq<u8>
    decreases s.len(),
{
    if s.len() == 0 {
        Seq::empty()
    } else {
        entry_bytes(s.first()) + manifest_of(s.drop_first())
    }
}

/// Appending one entry appends its rendering to the manifest.
pub proof fn lemma_manifest_push(s: Seq<EntryModel>, m: EntryModel)
    ensures
        manifest_of(s.push(m)) == manifest_of(s) + entry_bytes(m),
    decreases s.len(),
{
    let p = s.push(m);
    if s.len() == 0 {
        assert(p.first() == m);
        assert(p.drop_first() =~= Seq::<EntryModel>::empty());
        assert(manifest_of(p) == entry_bytes(m) + manifest_of(Seq::<EntryModel>::empty()));
        assert(manifest_of(Seq::<EntryModel>::empty()) =~= Seq::<u8>::empty());
        assert(manifest_of(s) == Seq::<u8>::empty());
        assert(manifest_of(p) =~= manifest_of(s) + entry_bytes(m));
    } else {
        assert(p.first() == s.first());
        assert(p.drop_first() =~= s.drop_first().push(m));
        lemma_manifest_push(s.drop_first(), m);
        assert(manifest_of(p) == entry_bytes(s.first()) + manifest_of(s.drop_first().push(m)));
        assert(manifest_of(p) =~= manifest_of(s) + entry_bytes(m));
    }
}

/// The identifier of a directory with the given entries: the `tree`-tagged
/// envelope hash of its manifest.
pub open spec fn dir_hash(s: Seq<EntryModel>) -> Seq<u8> {
    git_object_hash("tree"@, manifest_of(s))
}

// ---------------------------------------------------------------------------
// Sorting
// ---------------------------------------------------------------------------

/// Decides `entry_le` on two entries.
fn entry_le_exec(a: &DirectoryEntry, b: &DirectoryEntry) -> (r: bool)
    ensures
        r == entry_le(a@, b@),
{
    let ka = sort_key_exec(a);
    let kb = sort_key_exec(b);
    let lt = bytes_lt(ka.as_slice(), kb.as_slice());
    let eq = bytes_eq(ka.as_slice(), kb.as_slice());
    lt || eq
}

/// Builds the sort key of an entry.
fn sort_key_exec(e: &DirectoryEntry) -> (r: Vec<u8>)
    ensures
        r@ == sort_key(e@),
{
    let mut k = e.name.clone();
    match e.entry_type {
        EntryType::Directory => {
            k.push(47);
            assert(k@ =~= sort_key(e@));
        }
        _ => {
            assert(k@ =~= sort_key(e@));
        }
    }
    k
}

/// Inserts an entry into a sorted vector, after any entries it ties with.
fn insert_sorted(out: &mut Vec<DirectoryEntry>, e: DirectoryEntry)
    requires
        entries_sorted(models_of(old(out)@)),
    ensures
        entries_sorted(models_of(final(out)@)),
        models_of(final(out)@) == entry_insert(models_of(old(out)@), e@),
        models_of(final(out)@).to_multiset() == models_of(old(out)@).to_multiset().insert(e@),
{
    let n = out.len();
    let mut j: usize = 0;
    while j < n && entry_le_exec(&out[j], &e)
        invariant
            n == out@.len(),
            j <= n,
            forall|k: int| 0 <= k < j ==> entry_le(#[trigger] models_of(out@)[k], e@),
        decreases n - j,
    {
        j = j + 1;
    }
    let ghost before = models_of(out@);
    proof {
        lemma_entry_insert_skip(before, j as int, e@);
        if (j as int) < before.len() {
            assert(before.skip(j as int).first() == before[j as int]);
        } else {
            assert(before.skip(j as int) =~= Seq::<EntryModel>::empty());
        }
    }
    out.insert(j, e);
    proof {
        let after = models_of(out@);
        assert(after =~= before.insert(j as int, e@));
        assert(after =~= before.take(j as int) + entry_insert(before.skip(j as int), e@));
        assert(after == entry_insert(before, e@));
        vstd::seq_lib::to_multiset_insert(before, j as int, e@);
        assert(after.to_multiset() == before.to_multiset().insert(e@));
        if (j as int) < before.len() {
            assert(!entry_le(before[j as int], e@));
            lemma_entry_le_connected(before[j as int], e@);
        }
        assert forall|x: int, y: int| 0 <= x < y < after.len() implies entry_le(
            after[x],
            after[y],
        ) by {
            if y < j {
                assert(after[x] == before[x] && after[y] == before[y]);
            } else if x > j {
                assert(after[x] == before[x - 1] && after[y] == before[y - 1]);
            } else if x < j && y == j {
                assert(after[x] == before[x]);
                assert(entry_le(before[x], e@));
            } else if x == j && y > j {
                assert(after[y] == before[y - 1]);
                assert(entry_le(e@, before[j as int]));
                if j as int <= y - 2 {
                    assert(entry_le(before[j as int], before[y - 1]));
                    lemma_entry_le_trans(e@, before[j as int], before[y - 1]);
                } else {
                    assert(y - 1 == j as int);
                }
            } else {
                assert(x < j && y > j);
                assert(after[x] == before[x] && after[y] == before[y - 1]);
                assert(entry_le(before[x], e@));
                assert(entry_le(e@, before[j as int]));
                lemma_entry_le_trans(before[x], e@, before[j as int]);
                if j as int <= y - 2 {
                    assert(entry_le(before[j as int], before[y - 1]));
                    lemma_entry_le_trans(before[x], before[j as int], before[y - 1]);
                }
            }
        }
        assert(entries_sorted(after));
    }
}

/// Sorts entries into the canonical tree order; the multiset of entries
/// is preserved.
fn sort_entries(input: Vec<DirectoryEntry>) -> (r: Vec<DirectoryEntry>)
    ensures
        entries_sorted(models_of(r@)),
        models_of(r@) == entry_sort(models_of(input@)),
        models_of(r@).to_multiset() == models_of(input@).to_multiset(),
{
    let n = input.len();
    let mut v = input;
    let ghost all = models_of(v@);
    let mut out: Vec<DirectoryEntry> = Vec::new();
    let mut i: usize = 0;
    proof {
        assert(models_of(out@) =~= Seq::<EntryModel>::empty());
        assert(models_of(out@).to_multiset().add(models_of(v@).to_multiset()) =~= models_of(
            v@,
        ).to_multiset());
        assert(all.take(0) =~= Seq::<EntryModel>::empty());
        assert(all.skip(0) =~= all);
        assert(entry_sort(all.take(0)) =~= Seq::<EntryModel>::empty());
    }
    while i < n
        invariant
            n == all.len(),
            i <= n,
            v@.len() == n - i,
            models_of(v@) == all.skip(i as int),
            entries_sorted(models_of(out@)),
            models_of(out@) == entry_sort(all.take(i as int)),
            models_of(out@).to_multiset().add(models_of(v@).to_multiset()) == all.to_multiset(),
        decreases n - i,
    {
        let ghost vm = models_of(v@);
        let ghost vold = v@;
        let e = v.remove(0);
        proof {
            assert(vm[0] == all[i as int]);
            assert(v@ =~= vold.drop_first());
            assert forall|k: int| 0 <= k < v@.len() implies models_of(v@)[k] == vm[k + 1] by {
                assert(v@[k] == vold[k + 1]);
            }
            assert(models_of(v@) =~= vm.drop_first());
            assert(vm.drop_first() =~= all.skip(i + 1));
            assert(models_of(v@) =~= vm.remove(0));
            vstd::seq_lib::to_multiset_remove(vm, 0);
            assert(e@ == all[i as int]);
        }
        let ghost out_before = models_of(out@);
        insert_sorted(&mut out, e);
        proof {
            assert(models_of(out@) == entry_insert(out_before, all[i as int]));
            assert(all.take(i + 1).drop_last() =~= all.take(i as int));
            assert(all.take(i + 1).last() == all[i as int]);
            assert(models_of(out@) == entry_sort(all.take(i + 1)));
            assert(models_of(out@).to_multiset() == out_before.to_multiset().insert(e@));
            assert(models_of(out@).to_multiset().add(models_of(v@).to_multiset())
                =~= all.to_multiset());
        }
        i = i + 1;
    }
    proof {
        assert(all.take(n as int) =~= all);
        assert(models_of(v@) =~= Seq::<EntryModel>::empty());
        assert(models_of(v@).to_multiset() =~= Multiset::<EntryModel>::empty());
        assert(models_of(out@).to_multiset() =~= all.to_multiset());
    }
    out
}

// ---------------------------------------------------------------------------
// The directory object
// ---------------------------------------------------------------------------

/// A directory: entries held in the canonical order, and a memoized hash
/// that is filled on first demand and never diverges from the entries.
#[derive(Debug, Clone)]
pub struct Directory {
    entries: Vec<DirectoryEntry>,
    hash: Option<Vec<u8>>,
}

impl Directory {
    /// The entry models, as seen by contracts.
    pub closed spec fn models(&self) -> Seq<EntryModel> {
        models_of(self.entries@)
    }

    /// The memoized hash, as seen by contracts.
    pub closed spec fn hash_cache(&self) -> Option<Seq<u8>> {
        match self.hash {
            Some(h) => Some(h@),
            None => None,
        }
    }

    /// Entries are sorted, and the cache, when filled, holds exactly the
    /// hash of the entries.
    pub open spec fn wf(&self) -> bool {
        &&& entries_sorted(self.models())
        &&& match self.hash_cache() {
            Some(h) => h == dir_hash(self.models()) && h.len() == 20,
            None => true,
        }
    }

    /// Builds a directory from entries in any order: they are sorted into
    /// the canonical tree order, preserved as a multiset.
    pub fn new(entries: Vec<DirectoryEntry>) -> (r: Self)
        ensures
            r.wf(),
            r.hash_cache() is None,
            r.models() == entry_sort(models_of(entries@)),
            r.models().to_multiset() == models_of(entries@).to_multiset(),
    {
        let sorted = sort_entries(entries);
        Directory { entries: sorted, hash: None }
    }

    /// The entries, in canonical order.
    pub fn entries(&self) -> (r: &[DirectoryEntry])
        ensures
            models_of(r@) == self.models(),
    {
        self.entries.as_slice()
    }

    /// The directory's hash: computed from the manifest on first call,
    /// then served from the memo.  The entries never change.
    pub fn compute_hash(&mut self) -> (r: Vec<u8>)
        requires
            old(self).wf(),
        ensures
            final(self).wf(),
            final(self).models() == old(self).models(),
            final(self).hash_cache() == Some(r@),
            r@ == dir_hash(old(self).models()),
            r@.len() == 20,
    {
        match &self.hash {
            Some(h) => h.clone(),
            None => {
                let ghost ms = self.models();
                let mut buf: Vec<u8> = Vec::new();
                let n = self.entries.len();
                assert(ms.take(0) =~= Seq::<EntryModel>::empty());
                for i in 0..n
                    invariant
                        n == self.entries@.len(),
                        ms == self.models(),
                        self.hash is None,
                        buf@ == manifest_of(ms.take(i as int)),
                    {
                    let e = &self.entries[i];
                    let perms = e.permissions.octal_bytes();
                    push_bytes(&mut buf, perms.as_slice());
                    buf.push(32);
                    push_bytes(&mut buf, e.name.as_slice());
                    buf.push(0);
                    push_bytes(&mut buf, e.target.as_slice());
                    proof {
                        assert(ms[i as int] == self.entries@[i as int]@);
                        lemma_manifest_push(ms.take(i as int), ms[i as int]);
                        assert(ms.take(i + 1) =~= ms.take(i as int).push(ms[i as int]));
                        assert(buf@ =~= manifest_of(ms.take(i as int)) + entry_bytes(
                            ms[i as int],
                        ));
                    }
                }
                assert(ms.take(n as int) =~= ms);
                let h = hash_git_object("tree", buf.as_slice());
                self.hash = Some(h.clone());
                h
            }
        }
    }

    /// The directory identifier in structured form.
    pub fn swhid(&mut self) -> (r: Swhid)
        requires
            old(self).wf(),
        ensures
            final(self).wf(),
            final(self).models() == old(self).models(),
            r.spec_type() == ObjectType::Directory,
            r.id_bytes() == dir_hash(old(self).models()),
            r.wf(),
    {
        let h = self.compute_hash();
        Swhid::new(ObjectType::Directory, h)
    }

    /// No path is tracked for an in-memory directory.
    pub fn path(&self) -> (r: Option<&str>)
        ensures
            r is None,
    {
        None
    }

    /// Whether an entry name matches one of the exclusion patterns, by
    /// substring.
    pub fn should_exclude(name: &[u8], patterns: &[String]) -> (r: bool)
        ensures
            r == spec_should_exclude(name@, patterns.deep_view()),
    {
        let n = patterns.len();
        for k in 0..n
            invariant
                n == patterns@.len(),
                forall|t: int|
                    0 <= t < k ==> !has_substring(name@, vstd::utf8::encode_utf8(
                        #[trigger] patterns.deep_view()[t],
                    )),
        {
            let pat = patterns[k].as_str().as_bytes();
            assert(pat@ == vstd::utf8::encode_utf8(patterns.deep_view()[k as int]));
            if contains_bytes(name, pat) {
                return true;
            }
        }
        false
    }
}

/// Whether a name matches one of the exclusion patterns: some pattern's
/// UTF-8 bytes occur inside the name bytes.
pub open spec fn spec_should_exclude(name: Seq<u8>, patterns: Seq<Seq<char>>) -> bool {
    exists|k: int|
        0 <= k < patterns.len() && has_substring(name, vstd::utf8::encode_utf8(
            #[trigger] patterns[k],
        ))
}

/// Whether a textual name matches one of the exclusion patterns.
pub fn should_exclude_str(name: &str, patterns: &[String]) -> (r: bool)
    ensures
        r == spec_should_exclude(vstd::utf8::encode_utf8(name@), patterns.deep_view()),
{
    Directory::should_exclude(name.as_bytes(), patterns)
}

/// An object met while composing a tree: a file's content or a directory.
#[derive(Debug)]
pub enum TreeObject {
    Content(crate::content::Content),
    Directory(Directory),
}

impl TreeObject {
    /// Whether the held object satisfies its invariant.
    pub open spec fn wf(&self) -> bool {
        match self {
            TreeObject::Content(c) => c.wf(),
            TreeObject::Directory(d) => d.wf(),
        }
    }

    /// The identifier the held object carries: the content hash of the
    /// payload, or the tree hash of the entries.
    pub open spec fn object_id(&self) -> Seq<u8> {
        match self {
            TreeObject::Content(c) => crate::hash::content_hash(c.data_bytes()),
            TreeObject::Directory(d) => dir_hash(d.models()),
        }
    }

    /// The identifier of the held object.
    pub fn swhid(&mut self) -> (r: Swhid)
        requires
            old(self).wf(),
        ensures
            final(self).wf(),
            r.wf(),
            *old(self) matches TreeObject::Content(c) ==> r.spec_type() == ObjectType::Content
                && r.id_bytes() == crate::hash::content_hash(c.data_bytes()),
            *old(self) matches TreeObject::Directory(d) ==> r.spec_type() == ObjectType::Directory
                && r.id_bytes() == dir_hash(d.models()),
    {
        match self {
            TreeObject::Content(c) => c.swhid(),
            TreeObject::Directory(d) => d.swhid(),
        }
    }
}

// ---------------------------------------------------------------------------
// Order independence
// ---------------------------------------------------------------------------

/// An empty directory has a fixed identifier: the envelope hash of an
/// empty manifest under the `tree` tag.
pub proof fn lemma_empty_directory_hash()
    ensures
        manifest_of(Seq::<EntryModel>::empty()) == Seq::<u8>::empty(),
        dir_hash(Seq::<EntryModel>::empty()) == git_object_hash("tree"@, Seq::<u8>::empty()),
{
}

/// Two sequences sorted in the canonical order, holding the same entries
/// as a multiset, with no duplicate sort keys, are the same sequence.
pub proof fn lemma_sorted_entries_unique(x: Seq<EntryModel>, y: Seq<EntryModel>)
    requires
        entries_sorted(x),
        entries_sorted(y),
        distinct_keys(x),
        x.to_multiset() == y.to_multiset(),
    ensures
        x == y,
    decreases x.len(),
{
    if x.len() == 0 {
        assert(y.to_multiset().len() == 0);
        assert(y =~= x);
    } else {
        assert(x.to_multiset().contains(x[0]));
        assert(y.to_multiset().contains(x[0]));
        assert(y.contains(x[0]));
        let j = choose|j: int| 0 <= j < y.len() && y[j] == x[0];
        assert(x.to_multiset().contains(y[0]));
        assert(x.contains(y[0]));
        let i = choose|i: int| 0 <= i < x.len() && x[i] == y[0];
        assert(j > 0 ==> entry_le(y[0], y[j]));
        assert(i > 0 ==> entry_le(x[0], x[i]));
        assert(entry_le(y[0], y[j])) by {
            if j == 0 {
                lemma_entry_le_connected(y[0], y[0]);
            }
        }
        assert(entry_le(x[0], x[i])) by {
            if i == 0 {
                lemma_entry_le_connected(x[0], x[0]);
            }
        }
        assert(entry_le(x[0], y[0]) && entry_le(y[0], x[0]));
        assert(sort_key(x[0]) == sort_key(y[0])) by {
            lemma_lex_trichotomy(sort_key(x[0]), sort_key(y[0]));
        }
        assert(sort_key(x[i]) == sort_key(x[0])) by {
            assert(entry_le(x[0], x[i]));
            assert(entry_le(x[i], x[0])) by {
                assert(sort_key(x[i]) == sort_key(y[0]));
            }
            lemma_lex_trichotomy(sort_key(x[0]), sort_key(x[i]));
        }
        assert(i == 0);
        assert(x[0] == y[0]);
        let xr = x.remove(0);
        let yr = y.remove(0);
        assert(xr.to_multiset() == x.to_multiset().remove(x[0]));
        assert(yr.to_multiset() == y.to_multiset().remove(y[0]));
        assert(xr.to_multiset() == yr.to_multiset());
        assert(entries_sorted(xr)) by {
            assert(forall|p: int| 0 <= p < xr.len() ==> xr[p] == x[p + 1]);
        }
        assert(entries_sorted(yr)) by {
            assert(forall|p: int| 0 <= p < yr.len() ==> yr[p] == y[p + 1]);
        }
        assert(distinct_keys(xr)) by {
            assert(forall|p: int| 0 <= p < xr.len() ==> xr[p] == x[p + 1]);
        }
        lemma_sorted_entries_unique(xr, yr);
        assert(x.len() == y.len());
        assert(forall|p: int| 0 <= p < xr.len() ==> xr[p] == x[p + 1]);
        assert(forall|p: int| 0 <= p < yr.len() ==> yr[p] == y[p + 1]);
        assert forall|p: int| 0 <= p < x.len() implies x[p] == y[p] by {
            if p > 0 {
                assert(x[p] == xr[p - 1]);
                assert(y[p] == yr[p - 1]);
            }
        }
        assert(x =~= y);
    }
}

/// The order-independence law: a directory built from the same entries in
/// any insertion order has the same manifest and the same hash, provided
/// no two entries share a sort key.
pub proof fn lemma_insertion_order_irrelevant(d1: Directory, d2: Directory)
    requires
        d1.wf(),
        d2.wf(),
        distinct_keys(d1.models()),
        d1.models().to_multiset() == d2.models().to_multiset(),
    ensures
        d1.models() == d2.models(),
        manifest_of(d1.models()) == manifest_of(d2.models()),
        dir_hash(d1.models()) == dir_hash(d2.models()),
{
    lemma_sorted_entries_unique(d1.models(), d2.models());
}

} // verus!
